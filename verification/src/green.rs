//! What a green tree costs on the heap.
//!
//! Two things are counted, both of which a green tree certainly stores inline:
//! the child slots of every green node, and the text of every green token. The
//! headers of the allocations (reference count, kind, text length) are left
//! out, so the number errs low.
//!
//! Identical subtrees are interned while a file is parsed, so one allocation can
//! hang under many parents. The walk charges each allocation once, however many
//! parents refer to it.

use rowan::{GreenNode, GreenNodeData, GreenTokenData, NodeOrToken};
use rustc_hash::FxHashSet;
use std::marker::PhantomData;
use std::mem::size_of;
use std::ops::Deref;
use vstd::prelude::*;
use vstd::utf8::encode_utf8;

use crate::weight::{plus, reports, times};

verus! {

// ------------------------------------------------------------ outside types
/// `rowan::GreenNodeData`: one allocated node. The value stands for its
/// allocation, which is never copied or moved, so two of them are the same
/// value exactly when they are the same allocation.
#[verifier::external_type_specification]
#[verifier::external_body]
pub struct ExGreenNodeData(GreenNodeData);

/// `rowan::GreenTokenData`: one allocated token. The value stands for its
/// allocation, as for a node.
#[verifier::external_type_specification]
#[verifier::external_body]
pub struct ExGreenTokenData(GreenTokenData);

/// `rowan::GreenNode`: a counted reference to an allocated node.
#[verifier::external_type_specification]
#[verifier::external_body]
pub struct ExGreenNode(GreenNode);

/// A green tree as it hangs under a node: every node and token with the
/// allocation that it is.
pub enum GreenTree {
    Node { node: GreenNodeData, children: Seq<GreenTree> },
    Token { token: GreenTokenData, text: Seq<char> },
}

/// One child of a green node.
pub enum GreenElement<'a> {
    Node(&'a GreenNodeData),
    Token(&'a GreenTokenData),
}

/// The nodes that a walk has met, by address.
pub type SeenNodes<'a> = FxHashSet<(usize, PhantomData<&'a GreenNodeData>)>;

/// The tokens that a walk has met, by address.
pub type SeenTokens<'a> = FxHashSet<(usize, PhantomData<&'a GreenTokenData>)>;

// ---------------------------------------------------------- outside answers
/// The tree that hangs under a node.
pub uninterp spec fn tree_of(node: &GreenNodeData) -> GreenTree;

/// The text of a token.
pub uninterp spec fn text_of(token: &GreenTokenData) -> Seq<char>;

/// The node that a counted reference refers to.
pub uninterp spec fn root_of(green: &GreenNode) -> GreenNodeData;

/// The nodes, alive for as long as the set, whose addresses are in the set.
pub uninterp spec fn noted_nodes(
    seen: FxHashSet<(usize, PhantomData<&GreenNodeData>)>,
) -> Set<GreenNodeData>;

/// The tokens, alive for as long as the set, whose addresses are in the set.
pub uninterp spec fn noted_tokens(
    seen: FxHashSet<(usize, PhantomData<&GreenTokenData>)>,
) -> Set<GreenTokenData>;

/// The tree that a child is.
pub open spec fn element_tree(element: GreenElement) -> GreenTree {
    match element {
        GreenElement::Node(node) => tree_of(node),
        GreenElement::Token(token) => GreenTree::Token { token: *token, text: text_of(token) },
    }
}

/// `GreenNodeData::children`: the children of a node in order. They are the
/// first level of the tree that hangs under the node.
#[verifier::external_body]
fn children<'a>(node: &'a GreenNodeData) -> (elements: Vec<GreenElement<'a>>)
    ensures
        tree_of(node) == (GreenTree::Node {
            node: *node,
            children: elements@.map_values(|element: GreenElement<'a>| element_tree(element)),
        }),
{
    node.children()
        .map(
            |child|
                match child {
                    NodeOrToken::Node(node) => GreenElement::Node(node),
                    NodeOrToken::Token(token) => GreenElement::Token(token),
                },
        )
        .collect()
}

/// `GreenTokenData::text`: the text of a token.
pub assume_specification[ GreenTokenData::text ](token: &GreenTokenData) -> (text: &str)
    ensures
        text@ == text_of(token),
;

/// `GreenNode::deref`: the node that the reference refers to.
pub assume_specification[ <GreenNode as Deref>::deref ](green: &GreenNode) -> (node: &GreenNodeData)
    ensures
        *node == root_of(green),
;

/// `HashSet::default`: no node has been met.
#[verifier::external_body]
fn no_nodes<'a>() -> (seen: SeenNodes<'a>)
    ensures
        noted_nodes(seen) == Set::<GreenNodeData>::empty(),
{
    FxHashSet::default()
}

/// `HashSet::default`: no token has been met.
#[verifier::external_body]
fn no_tokens<'a>() -> (seen: SeenTokens<'a>)
    ensures
        noted_tokens(seen) == Set::<GreenTokenData>::empty(),
{
    FxHashSet::default()
}

/// `HashSet::insert` of the node's address: the node is met from now on, and
/// the answer is whether it was not before. Two nodes that live at the same
/// time never share an address.
#[verifier::external_body]
fn note_node<'a>(seen: &mut SeenNodes<'a>, node: &'a GreenNodeData) -> (fresh: bool)
    ensures
        noted_nodes(*final(seen)) == noted_nodes(*old(seen)).insert(*node),
        fresh == !noted_nodes(*old(seen)).contains(*node),
{
    seen.insert((std::ptr::from_ref(node).addr(), PhantomData))
}

/// `HashSet::insert` of the token's address: the token is met from now on, and
/// the answer is whether it was not before. Two tokens that live at the same
/// time never share an address.
#[verifier::external_body]
fn note_token<'a>(seen: &mut SeenTokens<'a>, token: &'a GreenTokenData) -> (fresh: bool)
    ensures
        noted_tokens(*final(seen)) == noted_tokens(*old(seen)).insert(*token),
        fresh == !noted_tokens(*old(seen)).contains(*token),
{
    seen.insert((std::ptr::from_ref(token).addr(), PhantomData))
}

// ------------------------------------------------------------------- weights
/// A tree and every tree below it, each once.
pub open spec fn subtrees(tree: GreenTree) -> Set<GreenTree>
    decreases tree,
{
    match tree {
        GreenTree::Node { children, .. } => subtrees_in(children).insert(tree),
        GreenTree::Token { .. } => Set::empty().insert(tree),
    }
}

/// Every tree at or below one of `trees`, each once.
pub open spec fn subtrees_in(trees: Seq<GreenTree>) -> Set<GreenTree>
    decreases trees,
{
    if trees.len() == 0 {
        Set::empty()
    } else {
        subtrees_in(trees.drop_last()).union(subtrees(trees.last()))
    }
}

/// A node or token in a tree is the one that its allocation is: what hangs under
/// a node, and the text of a token, is the same wherever the allocation occurs.
pub open spec fn is_its_allocation(tree: GreenTree) -> bool {
    match tree {
        GreenTree::Node { node, .. } => tree == tree_of(&node),
        GreenTree::Token { token, text } => text == text_of(&token),
    }
}

/// The bytes of one child slot: a pair of pointers.
pub open spec fn child_slot_bytes() -> nat {
    2 * vstd::layout::size_of::<usize>()
}

/// What one allocation is charged: a node its child slots, a token its text.
pub open spec fn allocation_bytes(tree: GreenTree) -> nat {
    match tree {
        GreenTree::Node { children, .. } => children.len() * child_slot_bytes(),
        GreenTree::Token { text, .. } => encode_utf8(text).len(),
    }
}

/// The sum of `f` over a finite set.
pub open spec fn sum_over<A>(set: Set<A>, f: spec_fn(A) -> nat) -> nat {
    set.fold(0nat, |so_far: nat, a: A| so_far + f(a))
}

/// What a set of allocations is charged.
pub open spec fn allocations_bytes(trees: Set<GreenTree>) -> nat {
    sum_over(trees, |tree: GreenTree| allocation_bytes(tree))
}

/// What a green tree weighs: every allocation in it, once.
pub open spec fn green_bytes(tree: GreenTree) -> nat {
    allocations_bytes(subtrees(tree))
}

/// One pair of pointers per child.
fn child_slot() -> (r: usize)
    ensures
        r == child_slot_bytes(),
{
    assert(usize::BITS == 32 || usize::BITS == 64);
    2 * size_of::<usize>()
}

// ------------------------------------------------------------------- lemmas
pub(crate) proof fn lemma_sum_over_insert<A>(set: Set<A>, f: spec_fn(A) -> nat, a: A)
    requires
        set.finite(),
        !set.contains(a),
    ensures
        sum_over(set.insert(a), f) == sum_over(set, f) + f(a),
{
    vstd::set::fold::lemma_fold_insert(set, 0nat, |so_far: nat, a: A| so_far + f(a), a);
}

pub(crate) proof fn lemma_sum_over_empty<A>(f: spec_fn(A) -> nat)
    ensures
        sum_over(Set::<A>::empty(), f) == 0,
{
    vstd::set::fold::lemma_fold_empty::<A, nat>(0nat, |so_far: nat, a: A| so_far + f(a));
}

pub(crate) proof fn lemma_subtrees_finite(tree: GreenTree)
    ensures
        subtrees(tree).finite(),
        subtrees(tree).contains(tree),
    decreases tree,
{
    if let GreenTree::Node { children, .. } = tree {
        lemma_subtrees_in_finite(children);
    }
}

pub(crate) proof fn lemma_subtrees_in_finite(trees: Seq<GreenTree>)
    ensures
        subtrees_in(trees).finite(),
    decreases trees,
{
    if trees.len() > 0 {
        lemma_subtrees_in_finite(trees.drop_last());
        lemma_subtrees_finite(trees.last());
    }
}

/// The trees below one of `trees` are below all of them together.
pub(crate) proof fn lemma_subtrees_of_one(trees: Seq<GreenTree>, i: int)
    requires
        0 <= i < trees.len(),
    ensures
        subtrees(trees[i]).subset_of(subtrees_in(trees)),
    decreases trees.len(),
{
    if i < trees.len() - 1 {
        lemma_subtrees_of_one(trees.drop_last(), i);
    }
}

/// What is below a subtree is below the tree.
pub(crate) proof fn lemma_subtrees_nest(tree: GreenTree, inner: GreenTree)
    requires
        subtrees(tree).contains(inner),
    ensures
        subtrees(inner).subset_of(subtrees(tree)),
        inner is Node ==> subtrees_in(inner->children).subset_of(subtrees(tree)),
    decreases tree,
{
    if inner != tree {
        lemma_subtrees_nest_in(tree->children, inner);
    }
}

pub(crate) proof fn lemma_subtrees_nest_in(trees: Seq<GreenTree>, inner: GreenTree)
    requires
        subtrees_in(trees).contains(inner),
    ensures
        subtrees(inner).subset_of(subtrees_in(trees)),
        inner is Node ==> subtrees_in(inner->children).subset_of(subtrees_in(trees)),
    decreases trees,
{
    if subtrees(trees.last()).contains(inner) {
        lemma_subtrees_nest(trees.last(), inner);
    } else {
        lemma_subtrees_nest_in(trees.drop_last(), inner);
    }
}

/// `set` holds the children of every node in it.
pub(crate) open spec fn closed_under_children(set: Set<GreenTree>) -> bool {
    forall|tree: GreenTree, i: int| #![trigger set.contains(tree), tree->children[i]]
        set.contains(tree) && tree is Node && 0 <= i < tree->children.len() ==> set.contains(
            tree->children[i],
        )
}

pub(crate) proof fn lemma_closed_covers(set: Set<GreenTree>, tree: GreenTree)
    requires
        closed_under_children(set),
        set.contains(tree),
    ensures
        subtrees(tree).subset_of(set),
    decreases tree,
{
    if let GreenTree::Node { children, .. } = tree {
        assert forall|i: int| 0 <= i < children.len() implies set.contains(#[trigger] children[i]) by {
            assert(set.contains(tree->children[i]));
        }
        lemma_closed_covers_all(set, children);
    }
}

proof fn lemma_closed_covers_all(set: Set<GreenTree>, trees: Seq<GreenTree>)
    requires
        closed_under_children(set),
        forall|i: int| 0 <= i < trees.len() ==> set.contains(#[trigger] trees[i]),
    ensures
        subtrees_in(trees).subset_of(set),
    decreases trees,
{
    if trees.len() > 0 {
        assert(set.contains(trees[trees.len() - 1]));
        assert forall|i: int| 0 <= i < trees.drop_last().len() implies set.contains(
            #[trigger] trees.drop_last()[i],
        ) by {
            assert(set.contains(trees[i]));
        }
        lemma_closed_covers_all(set, trees.drop_last());
        lemma_closed_covers(set, trees.last());
    }
}

/// How many nodes and tokens a walk meets below a tree if nothing is shared.
spec fn tree_size(tree: GreenTree) -> nat
    decreases tree,
{
    match tree {
        GreenTree::Node { children, .. } => 1 + forest_size(children),
        GreenTree::Token { .. } => 1,
    }
}

spec fn forest_size(trees: Seq<GreenTree>) -> nat
    decreases trees,
{
    if trees.len() == 0 {
        0
    } else {
        forest_size(trees.drop_last()) + tree_size(trees.last())
    }
}

proof fn lemma_forest_size_push(trees: Seq<GreenTree>, tree: GreenTree)
    ensures
        forest_size(trees.push(tree)) == forest_size(trees) + tree_size(tree),
{
    assert(trees.push(tree).drop_last() =~= trees);
}

// --------------------------------------------------------------------- walk
/// How far a walk over `whole` has come: the allocations it has charged, the
/// nodes and tokens it has met, and the trees that still wait.
struct Progress {
    whole: GreenTree,
    charged: Set<GreenTree>,
    nodes: Set<GreenNodeData>,
    tokens: Set<GreenTokenData>,
    waiting: Seq<GreenTree>,
}

impl Progress {
    /// The walk has charged what it has met, and nothing from outside.
    #[verifier::opaque]
    spec fn tallies(self) -> bool {
        &&& self.charged.finite()
        &&& self.charged.subset_of(subtrees(self.whole))
        &&& forall|i: int| 0 <= i < self.waiting.len() ==> subtrees(
            #[trigger] self.waiting[i],
        ).subset_of(subtrees(self.whole))
        &&& forall|node: GreenNodeData| #[trigger]
            self.nodes.contains(node) ==> self.charged.contains(tree_of(&node)) && tree_of(
                &node,
            ) is Node && tree_of(&node)->node == node
        &&& forall|token: GreenTokenData| #[trigger]
            self.tokens.contains(token) ==> self.charged.contains(
                GreenTree::Token { token, text: text_of(&token) },
            )
        &&& forall|tree: GreenTree| #[trigger]
            self.charged.contains(tree) ==> is_its_allocation(tree) && match tree {
                GreenTree::Node { node, .. } => self.nodes.contains(node),
                GreenTree::Token { token, .. } => self.tokens.contains(token),
            }
    }

    /// The whole, and each child of a charged node, is charged or waits; of the
    /// node `open` that is said of its first `done` children only.
    #[verifier::opaque]
    spec fn covers(self, open: Option<GreenTree>, done: int) -> bool {
        &&& self.charged.contains(self.whole) || self.waiting.contains(self.whole)
        &&& forall|tree: GreenTree, i: int| #![trigger self.charged.contains(tree), tree->children[i]]
            self.charged.contains(tree) && tree is Node && 0 <= i < tree->children.len() && (open
                != Some(tree) || i < done) ==> self.charged.contains(tree->children[i])
                || self.waiting.contains(tree->children[i])
    }
}

/// The trees that hang under the nodes of a worklist.
spec fn pending(worklist: Seq<&GreenNodeData>) -> Seq<GreenTree> {
    worklist.map_values(|node: &GreenNodeData| tree_of(node))
}

/// Where a walk starts.
proof fn lemma_walk_starts(whole: GreenTree)
    ensures
        ({
            let start = Progress {
                whole,
                charged: Set::empty(),
                nodes: Set::empty(),
                tokens: Set::empty(),
                waiting: seq![whole],
            };
            start.tallies() && start.covers(None, 0)
        }),
        allocations_bytes(Set::empty()) == 0,
{
    reveal(Progress::tallies);
    reveal(Progress::covers);
    lemma_sum_over_empty(|tree: GreenTree| allocation_bytes(tree));
    assert(seq![whole].contains(whole)) by {
        assert(seq![whole][0] == whole);
    }
}

proof fn lemma_contains_push(trees: Seq<GreenTree>, last: GreenTree)
    ensures
        forall|tree: GreenTree| #[trigger]
            trees.push(last).contains(tree) <==> tree == last || trees.contains(tree),
{
    assert forall|tree: GreenTree| tree == last || trees.contains(tree) implies #[trigger] trees.push(
        last,
    ).contains(tree) by {
        if tree == last {
            assert(trees.push(last)[trees.len() as int] == tree);
        } else {
            let i = choose|i: int| 0 <= i < trees.len() && trees[i] == tree;
            assert(trees.push(last)[i] == tree);
        }
    }
}

/// A node that was met before may be dropped from the worklist.
proof fn lemma_walk_skips(p: Progress, rest: Seq<GreenTree>, node: GreenNodeData)
    requires
        p.tallies(),
        p.covers(None, 0),
        p.waiting == rest.push(tree_of(&node)),
        p.nodes.contains(node),
    ensures
        (Progress { waiting: rest, ..p }).tallies(),
        (Progress { waiting: rest, ..p }).covers(None, 0),
{
    reveal(Progress::tallies);
    reveal(Progress::covers);
    lemma_contains_push(rest, tree_of(&node));
    assert forall|i: int| 0 <= i < rest.len() implies subtrees(#[trigger] rest[i]).subset_of(
        subtrees(p.whole),
    ) by {
        assert(p.waiting[i] == rest[i]);
    }
}

/// A node that was not met before is charged, and its children come next.
proof fn lemma_walk_visits(p: Progress, rest: Seq<GreenTree>, node: GreenNodeData)
    requires
        p.tallies(),
        p.covers(None, 0),
        p.waiting == rest.push(tree_of(&node)),
        !p.nodes.contains(node),
        tree_of(&node) is Node,
        tree_of(&node)->node == node,
    ensures
        ({
            let tree = tree_of(&node);
            let next = Progress {
                charged: p.charged.insert(tree),
                nodes: p.nodes.insert(node),
                waiting: rest,
                ..p
            };
            &&& next.tallies()
            &&& next.covers(Some(tree), 0)
            &&& next.charged.contains(tree)
            &&& allocations_bytes(next.charged) == allocations_bytes(p.charged) + allocation_bytes(
                tree,
            )
        }),
{
    reveal(Progress::tallies);
    reveal(Progress::covers);
    let tree = tree_of(&node);
    lemma_contains_push(rest, tree);
    assert(p.waiting[rest.len() as int] == tree);
    assert(subtrees(tree).contains(tree));
    lemma_sum_over_insert(p.charged, |tree: GreenTree| allocation_bytes(tree), tree);
    assert forall|i: int| 0 <= i < rest.len() implies subtrees(#[trigger] rest[i]).subset_of(
        subtrees(p.whole),
    ) by {
        assert(p.waiting[i] == rest[i]);
    }
}

/// A child that is a node joins the worklist.
proof fn lemma_walk_queues(p: Progress, tree: GreenTree, i: int)
    requires
        p.tallies(),
        p.covers(Some(tree), i),
        p.charged.contains(tree),
        tree is Node,
        0 <= i < tree->children.len(),
    ensures
        (Progress { waiting: p.waiting.push(tree->children[i]), ..p }).tallies(),
        (Progress { waiting: p.waiting.push(tree->children[i]), ..p }).covers(Some(tree), i + 1),
{
    reveal(Progress::tallies);
    reveal(Progress::covers);
    let child = tree->children[i];
    let waiting = p.waiting.push(child);
    lemma_contains_push(p.waiting, child);
    lemma_child_within(p, tree, i);
    assert forall|j: int| 0 <= j < waiting.len() implies subtrees(#[trigger] waiting[j]).subset_of(
        subtrees(p.whole),
    ) by {
        if j < p.waiting.len() {
            assert(waiting[j] == p.waiting[j]);
        }
    }
}

/// A child that is a token is charged unless it was met before.
proof fn lemma_walk_charges(p: Progress, tree: GreenTree, i: int, token: GreenTokenData)
    requires
        p.tallies(),
        p.covers(Some(tree), i),
        p.charged.contains(tree),
        tree is Node,
        0 <= i < tree->children.len(),
        tree->children[i] == (GreenTree::Token { token, text: text_of(&token) }),
    ensures
        p.tokens.contains(token) ==> p.covers(Some(tree), i + 1),
        !p.tokens.contains(token) ==> {
            let child = tree->children[i];
            let next = Progress {
                charged: p.charged.insert(child),
                tokens: p.tokens.insert(token),
                ..p
            };
            &&& next.tallies()
            &&& next.covers(Some(tree), i + 1)
            &&& allocations_bytes(next.charged) == allocations_bytes(p.charged) + allocation_bytes(
                child,
            )
        },
{
    reveal(Progress::tallies);
    reveal(Progress::covers);
    let child = tree->children[i];
    lemma_child_within(p, tree, i);
    if !p.tokens.contains(token) {
        lemma_sum_over_insert(p.charged, |tree: GreenTree| allocation_bytes(tree), child);
        assert(subtrees(child).contains(child));
    }
}

/// What is below a child of a charged node is below the whole.
proof fn lemma_child_within(p: Progress, tree: GreenTree, i: int)
    requires
        p.tallies(),
        p.charged.contains(tree),
        tree is Node,
        0 <= i < tree->children.len(),
    ensures
        subtrees(tree->children[i]).subset_of(subtrees(p.whole)),
{
    reveal(Progress::tallies);
    lemma_subtrees_nest(p.whole, tree);
    lemma_subtrees_of_one(tree->children, i);
}

/// With all of its children done, a node needs no more attention.
proof fn lemma_walk_closes(p: Progress, tree: GreenTree)
    requires
        p.covers(Some(tree), tree->children.len() as int),
    ensures
        p.covers(None, 0),
{
    reveal(Progress::covers);
}

/// When nothing waits, everything is charged, and each node and token is its
/// allocation.
proof fn lemma_walk_ends(p: Progress, root: GreenNodeData)
    requires
        p.tallies(),
        p.covers(None, 0),
        p.waiting.len() == 0,
        p.nodes.contains(root),
    ensures
        p.charged == subtrees(p.whole),
        tree_of(&root) is Node,
        tree_of(&root)->node == root,
        forall|tree: GreenTree| #[trigger]
            subtrees(p.whole).contains(tree) ==> is_its_allocation(tree),
{
    reveal(Progress::tallies);
    reveal(Progress::covers);
    assert(closed_under_children(p.charged));
    lemma_closed_covers(p.charged, p.whole);
    assert(p.charged =~= subtrees(p.whole));
}

/// Charges every allocation in the tree under `root` once.
///
/// An explicit worklist rather than recursion: the depth here is the nesting
/// depth of the parsed source, so a generated or pathological file would
/// otherwise decide how much stack this needs.
pub fn green_tree(root: &GreenNodeData) -> (r: Option<usize>)
    ensures
        reports(r, green_bytes(tree_of(root))),
        tree_of(root) is Node,
        tree_of(root)->node == *root,
        forall|tree: GreenTree| #[trigger]
            subtrees(tree_of(root)).contains(tree) ==> is_its_allocation(tree),
{
    let mut seen_nodes: SeenNodes = no_nodes();
    let mut seen_tokens: SeenTokens = no_tokens();
    let mut worklist: Vec<&GreenNodeData> = Vec::new();
    worklist.push(root);
    let mut bytes: Option<usize> = Some(0);
    let ghost mut p = Progress {
        whole: tree_of(root),
        charged: Set::empty(),
        nodes: Set::empty(),
        tokens: Set::empty(),
        waiting: seq![tree_of(root)],
    };
    proof {
        lemma_walk_starts(tree_of(root));
        assert(pending(worklist@) =~= p.waiting);
    }

    while worklist.len() > 0
        invariant
            p.whole == tree_of(root),
            p.nodes == noted_nodes(seen_nodes),
            p.tokens == noted_tokens(seen_tokens),
            p.waiting == pending(worklist@),
            p.tallies(),
            p.covers(None, 0),
            reports(bytes, allocations_bytes(p.charged)),
            p.nodes.contains(*root) || worklist@ == seq![root],
        decreases forest_size(pending(worklist@)),
    {
        let node = worklist.pop().unwrap();
        let ghost tree = tree_of(node);
        let ghost rest = pending(worklist@);
        proof {
            assert(p.waiting =~= rest.push(tree));
            lemma_forest_size_push(rest, tree);
        }
        if !note_node(&mut seen_nodes, node) {
            proof {
                lemma_walk_skips(p, rest, *node);
                assert(p.nodes =~= p.nodes.insert(*node));
                p = Progress { waiting: rest, ..p };
            }
            continue;
        }
        let elements = children(node);
        proof {
            lemma_walk_visits(p, rest, *node);
            p =
            Progress {
                charged: p.charged.insert(tree),
                nodes: p.nodes.insert(*node),
                waiting: rest,
                ..p
            };
        }
        let slots = times(elements.len(), child_slot());
        bytes = plus(bytes, slots);
        proof {
            assert(reports(slots, elements@.len() * child_slot_bytes()));
            assert(tree->children.take(0) =~= Seq::empty());
        }
        let mut i: usize = 0;
        while i < elements.len()
            invariant
                i <= elements.len(),
                tree is Node,
                tree->children == elements@.map_values(
                    |element: GreenElement| element_tree(element),
                ),
                p.whole == tree_of(root),
                p.nodes == noted_nodes(seen_nodes),
                p.tokens == noted_tokens(seen_tokens),
                p.waiting == pending(worklist@),
                p.nodes.contains(*root),
                p.charged.contains(tree),
                p.tallies(),
                p.covers(Some(tree), i as int),
                reports(bytes, allocations_bytes(p.charged)),
                forest_size(pending(worklist@)) <= forest_size(rest) + forest_size(
                    tree->children.take(i as int),
                ),
            decreases elements.len() - i,
        {
            let ghost child = tree->children[i as int];
            proof {
                assert(tree->children.take(i + 1) =~= tree->children.take(i as int).push(child));
                lemma_forest_size_push(tree->children.take(i as int), child);
            }
            match &elements[i] {
                GreenElement::Node(node) => {
                    worklist.push(*node);
                    proof {
                        lemma_walk_queues(p, tree, i as int);
                        lemma_forest_size_push(p.waiting, child);
                        assert(pending(worklist@) =~= p.waiting.push(child));
                        p = Progress { waiting: p.waiting.push(child), ..p };
                    }
                },
                GreenElement::Token(token) => {
                    proof {
                        lemma_walk_charges(p, tree, i as int, **token);
                    }
                    if note_token(&mut seen_tokens, *token) {
                        let text = token.text().as_bytes().len();
                        bytes = plus(bytes, Some(text));
                        proof {
                            assert(reports(Some(text), allocation_bytes(child)));
                            p =
                            Progress {
                                charged: p.charged.insert(child),
                                tokens: p.tokens.insert(**token),
                                ..p
                            };
                        }
                    } else {
                        assert(p.tokens =~= p.tokens.insert(**token));
                    }
                },
            }
            i = i + 1;
        }
        proof {
            assert(tree->children.take(i as int) =~= tree->children);
            lemma_walk_closes(p, tree);
        }
    }
    proof {
        lemma_walk_ends(p, *root);
    }
    bytes
}

} // verus!
