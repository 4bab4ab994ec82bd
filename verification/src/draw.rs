//! Trees of labels drawn as text, one line for each node.

use crate::tree::{views, OrderedTree, TreeView};
use vstd::prelude::*;

verus! {

/// `termtree::Tree`, the tree that the `termtree` crate draws. The verifier
/// carries values of it and sees nothing inside them.
#[verifier::external_type_specification]
#[verifier::external_body]
#[verifier::reject_recursive_types(D)]
pub struct ExTermTree<D: std::fmt::Display>(termtree::Tree<D>);

/// What a `termtree::Tree` holds: the labels of its nodes from the top down,
/// the children of a node in their order, each label with the number of levels
/// above it. Assumed of `termtree`, not proved.
pub uninterp spec fn outline_of(tree: termtree::Tree<String>) -> Seq<(nat, Seq<char>)>;

/// Whether a `termtree::Tree` is as `termtree::Tree::new` and
/// `termtree::Tree::push` make it: no node of it has glyphs of its own or is
/// set to be drawn line by line. Assumed of `termtree`, not proved.
pub uninterp spec fn is_plain(tree: termtree::Tree<String>) -> bool;

/// The text that the `Display` of `termtree::Tree` writes for a plain tree with
/// this outline. The crate's source gives no shorter statement of it than its
/// code, so the text has a name here and no definition.
pub uninterp spec fn drawing(outline: Seq<(nat, Seq<char>)>) -> Seq<char>;

/// An outline one level further down.
pub open spec fn deepened(outline: Seq<(nat, Seq<char>)>) -> Seq<(nat, Seq<char>)> {
    Seq::new(outline.len(), |i: int| ((outline[i].0 + 1) as nat, outline[i].1))
}

/// The outline of a tree of labels: its root at level 0, then the outlines of its
/// children in their order, one level down.
pub open spec fn outline(tree: TreeView<Seq<char>>) -> Seq<(nat, Seq<char>)>
    decreases tree,
{
    seq![(0nat, tree.value)] + deepened(outlines(tree.children))
}

/// The outlines of `trees`, one after the other.
pub open spec fn outlines(trees: Seq<TreeView<Seq<char>>>) -> Seq<(nat, Seq<char>)>
    decreases trees,
{
    if trees.len() == 0 {
        Seq::empty()
    } else {
        outlines(trees.drop_last()) + outline(trees.last())
    }
}

/// Calls `termtree::Tree::new`. Assumed, not proved: the tree is plain and
/// holds `label` alone.
#[verifier::external_body]
fn leaf(label: String) -> (tree: termtree::Tree<String>)
    ensures
        outline_of(tree) == seq![(0nat, label@)],
        is_plain(tree),
{
    termtree::Tree::new(label)
}

/// Calls `termtree::Tree::push`. Assumed, not proved: `leaf` becomes the last
/// child of the root of `tree`, so that its outline follows what `tree` held,
/// one level down, and two plain trees make a plain tree.
#[verifier::external_body]
fn push_leaf(tree: &mut termtree::Tree<String>, leaf: termtree::Tree<String>)
    requires
        is_plain(*old(tree)),
        is_plain(leaf),
    ensures
        outline_of(*final(tree)) == outline_of(*old(tree)) + deepened(outline_of(leaf)),
        is_plain(*final(tree)),
{
    tree.push(leaf);
}

/// Calls the `Display` of `termtree::Tree` through `to_string`. Assumed, not
/// proved: what is written for a plain tree depends on its outline alone.
#[verifier::external_body]
fn drawn(tree: &termtree::Tree<String>) -> (text: String)
    requires
        is_plain(*tree),
    ensures
        text@ == drawing(outline_of(*tree)),
{
    tree.to_string()
}

/// Taking an outline one level down goes through concatenation.
proof fn lemma_deepened_add(first: Seq<(nat, Seq<char>)>, second: Seq<(nat, Seq<char>)>)
    ensures
        deepened(first + second) == deepened(first) + deepened(second),
{
}

impl OrderedTree<String> {
    /// The same tree as the drawing crate holds it.
    fn to_termtree(&self) -> (drawable: termtree::Tree<String>)
        ensures
            outline_of(drawable) == outline(self@),
            is_plain(drawable),
        decreases self,
    {
        let mut drawable = leaf(self.value.clone());
        let mut i: usize = 0;
        while i < self.children.len()
            invariant
                i <= self.children.len(),
                is_plain(drawable),
                outline_of(drawable) == seq![(0nat, self.value@)] + deepened(
                    outlines(views(self.children@.take(i as int))),
                ),
            decreases self.children.len() - i,
        {
            let ghost before = self.children@.take(i as int);
            let ghost after = self.children@.take(i + 1);
            let child = self.children[i].to_termtree();
            proof {
                assert(after.drop_last() == before);
                assert(views(after).drop_last() == views(before));
                lemma_deepened_add(outlines(views(before)), outline(self.children[i as int]@));
            }
            push_leaf(&mut drawable, child);
            i = i + 1;
        }
        assert(self.children@.take(i as int) == self.children@);
        drawable
    }

    /// The tree drawn as text: one line for each label, from the top down, the
    /// children of a node in their order.
    pub fn draw(&self) -> (text: String)
        ensures
            text@ == drawing(outline(self@)),
    {
        let drawable = self.to_termtree();
        drawn(&drawable)
    }
}

} // verus!
