//! A whole module tree as text: each node by its line, the lines drawn as a
//! tree.

use crate::draw::{drawing, outline};
use crate::node::{NodeView, RenderError, TreeNode};
use crate::tree::{lemma_views, views, OrderedTree, TreeView};
use vstd::prelude::*;

verus! {

/// The tree of the lines of the nodes, and none where a node has no line.
pub open spec fn labelled(tree: TreeView<NodeView>) -> Option<TreeView<Seq<char>>>
    decreases tree,
{
    match tree.value.label() {
        None => None,
        Some(label) => match labelled_all(tree.children) {
            None => None,
            Some(children) => Some(TreeView { value: label, children }),
        },
    }
}

/// The trees of lines of `trees`, and none where a node of one of them has no
/// line.
pub open spec fn labelled_all(trees: Seq<TreeView<NodeView>>) -> Option<Seq<TreeView<Seq<char>>>>
    decreases trees,
{
    if trees.len() == 0 {
        Some(Seq::empty())
    } else {
        match labelled_all(trees.drop_last()) {
            None => None,
            Some(before) => match labelled(trees.last()) {
                None => None,
                Some(last) => Some(before.push(last)),
            },
        }
    }
}

/// The text of a module tree: the drawing of the tree of its lines. There is
/// none where a node has no line.
pub open spec fn rendering(tree: TreeView<NodeView>) -> Option<Seq<char>> {
    match labelled(tree) {
        Some(labels) => Some(drawing(outline(labels))),
        None => None,
    }
}

/// What it is for `text` to be the outcome of rendering `tree`.
pub open spec fn renders_to(tree: TreeView<NodeView>, text: Result<String, RenderError>) -> bool {
    match text {
        Ok(text) => rendering(tree) == Some(text@),
        Err(_) => rendering(tree) is None,
    }
}

/// Where the first trees of a sequence have no lines, the whole sequence has
/// none.
pub proof fn lemma_unlabelled_prefix(trees: Seq<TreeView<NodeView>>, n: int)
    requires
        0 <= n <= trees.len(),
        labelled_all(trees.take(n)) is None,
    ensures
        labelled_all(trees) is None,
    decreases trees.len(),
{
    if n < trees.len() {
        assert(trees.drop_last().take(n) == trees.take(n));
        lemma_unlabelled_prefix(trees.drop_last(), n);
    } else {
        assert(trees.take(n) == trees);
    }
}

impl OrderedTree<TreeNode> {
    /// The tree of the lines of the nodes. It fails where the path of a node is
    /// not text.
    pub fn labels(&self) -> (labels: Result<OrderedTree<String>, RenderError>)
        ensures
            match labels {
                Ok(labels) => labelled(self@) == Some(labels@),
                Err(_) => labelled(self@) is None,
            },
        decreases self,
    {
        let label = match self.value.render() {
            Ok(label) => label,
            Err(error) => {
                return Err(error);
            },
        };
        let mut children: Vec<OrderedTree<String>> = Vec::new();
        let mut i: usize = 0;
        while i < self.children.len()
            invariant
                i <= self.children.len(),
                labelled_all(views(self.children@.take(i as int))) == Some(views(children@)),
            decreases self.children.len() - i,
        {
            let ghost before = self.children@.take(i as int);
            let ghost after = self.children@.take(i + 1);
            let ghost done = children@;
            proof {
                assert(after.drop_last() == before);
                assert(views(after).drop_last() == views(before));
            }
            match self.children[i].labels() {
                Ok(child) => {
                    children.push(child);
                    assert(children@.drop_last() == done);
                },
                Err(error) => {
                    proof {
                        lemma_views(self.children@);
                        lemma_views(after);
                        lemma_unlabelled_prefix(views(self.children@), i + 1);
                    }
                    return Err(error);
                },
            }
            i = i + 1;
        }
        assert(self.children@.take(i as int) == self.children@);
        Ok(OrderedTree::new(label).with_leaves(children))
    }

    /// The text of the tree: one line for each node, drawn as a tree. It fails
    /// where the path of a node is not text.
    pub fn render(&self) -> (text: Result<String, RenderError>)
        ensures
            renders_to(self@, text),
    {
        match self.labels() {
            Ok(labels) => Ok(labels.draw()),
            Err(error) => Err(error),
        }
    }
}

} // verus!
