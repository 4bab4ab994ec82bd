//! An ordered tree with a value at each node.

use vstd::prelude::*;

verus! {

/// A value and, below it, an ordered sequence of trees.
#[derive(Debug, PartialEq, Eq)]
pub struct OrderedTree<T> {
    pub value: T,
    pub children: Vec<OrderedTree<T>>,
}

/// The mathematical tree that an `OrderedTree` stands for.
pub ghost struct TreeView<V> {
    pub value: V,
    pub children: Seq<TreeView<V>>,
}

impl<T: View> View for OrderedTree<T> {
    type V = TreeView<T::V>;

    open spec fn view(&self) -> TreeView<T::V> {
        view_of(*self)
    }
}

/// The mathematical tree that `tree` stands for.
pub open spec fn view_of<T: View>(tree: OrderedTree<T>) -> TreeView<T::V>
    decreases tree,
{
    TreeView { value: tree.value@, children: views(tree.children@) }
}

/// The mathematical trees that a sequence of `OrderedTree`s stands for.
pub open spec fn views<T: View>(trees: Seq<OrderedTree<T>>) -> Seq<TreeView<T::V>>
    decreases trees,
{
    if trees.len() == 0 {
        Seq::empty()
    } else {
        views(trees.drop_last()).push(view_of(trees.last()))
    }
}

/// The views of a sequence of trees, one by one.
pub proof fn lemma_views<T: View>(trees: Seq<OrderedTree<T>>)
    ensures
        views(trees).len() == trees.len(),
        forall|i: int| 0 <= i < trees.len() ==> #[trigger] views(trees)[i] == trees[i]@,
    decreases trees.len(),
{
    if trees.len() > 0 {
        lemma_views(trees.drop_last());
    }
}

impl<V> TreeView<V> {
    /// The number of levels: 1 for a tree without children.
    pub open spec fn depth(self) -> nat
        decreases self,
    {
        1 + Self::deepest(self.children)
    }

    /// The greatest depth among `trees`, 0 where there is none.
    pub open spec fn deepest(trees: Seq<TreeView<V>>) -> nat
        decreases trees,
    {
        if trees.len() == 0 {
            0
        } else {
            let before = Self::deepest(trees.drop_last());
            let last = trees.last().depth();
            if last > before {
                last
            } else {
                before
            }
        }
    }

    /// The values of the tree from the top down: the root's, then those of each
    /// child in their order.
    pub open spec fn values(self) -> Seq<V>
        decreases self,
    {
        seq![self.value] + Self::values_of(self.children)
    }

    /// The values of `trees`, one tree after the other.
    pub open spec fn values_of(trees: Seq<TreeView<V>>) -> Seq<V>
        decreases trees,
    {
        if trees.len() == 0 {
            Seq::empty()
        } else {
            Self::values_of(trees.drop_last()) + trees.last().values()
        }
    }
}

impl<T: View> OrderedTree<T> {
    /// A tree of one node.
    pub fn new(value: T) -> (tree: OrderedTree<T>)
        ensures
            tree@ == (TreeView { value: value@, children: Seq::empty() }),
    {
        OrderedTree { value, children: Vec::new() }
    }

    /// The tree with `leaves` below its root, in place of what was there.
    pub fn with_leaves(self, leaves: Vec<OrderedTree<T>>) -> (tree: OrderedTree<T>)
        ensures
            tree@ == (TreeView { value: self@.value, children: views(leaves@) }),
    {
        OrderedTree { value: self.value, children: leaves }
    }
}

} // verus!
