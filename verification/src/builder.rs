//! From the module calls of a project to the tree that shows them.

use crate::node::{NodeView, TreeNode};
use crate::path::{join, joined};
use crate::resolve::{lookup, resolve, resolved, KnownPaths};
use crate::schema::{calls_view, CallView, Module, ModuleCall, ModuleDocument, ModuleView};
use crate::text::texts;
use crate::tree::{views, OrderedTree, TreeView};
use vstd::prelude::*;
use vstd::utf8::encode_utf8;

verus! {

impl CallView {
    /// The tree of a call named `name` that a module in the directory `parent`
    /// makes: the call's own node, over the trees of the calls that its module
    /// makes from the directory that the call names.
    pub open spec fn tree(
        self,
        name: Seq<char>,
        parent: Seq<char>,
        known: Map<Seq<char>, Seq<u8>>,
    ) -> TreeView<NodeView>
        decreases self,
    {
        let dir = joined(parent, self.source);
        TreeView {
            value: NodeView {
                name,
                count: self.count,
                for_each: self.for_each,
                source: resolved(dir, lookup(known, dir)),
            },
            children: self.module.trees(dir, known),
        }
    }
}

impl ModuleView {
    /// The trees of the calls that a module in the directory `parent` makes, in
    /// the order of the calls.
    pub open spec fn trees(self, parent: Seq<char>, known: Map<Seq<char>, Seq<u8>>) -> Seq<
        TreeView<NodeView>,
    >
        decreases self,
    {
        match self.calls {
            None => Seq::empty(),
            Some(calls) => Self::trees_of(calls, parent, known),
        }
    }

    /// The trees of `calls`, made from the directory `parent`.
    pub open spec fn trees_of(
        calls: Seq<(Seq<char>, CallView)>,
        parent: Seq<char>,
        known: Map<Seq<char>, Seq<u8>>,
    ) -> Seq<TreeView<NodeView>>
        decreases calls,
    {
        if calls.len() == 0 {
            Seq::empty()
        } else {
            Self::trees_of(calls.drop_last(), parent, known).push(
                calls.last().1.tree(calls.last().0, parent, known),
            )
        }
    }
}

impl ModuleView {
    /// The tree of a project in the directory `base`: a root named `*` that
    /// stands for the project itself, over the trees of the calls that the root
    /// module makes.
    pub open spec fn project_tree(
        self,
        base: Seq<char>,
        known: Map<Seq<char>, Seq<u8>>,
    ) -> TreeView<NodeView> {
        TreeView {
            value: NodeView {
                name: seq!['*'],
                count: None,
                for_each: None,
                source: encode_utf8(base),
            },
            children: self.trees(base, known),
        }
    }

    /// The directories that the calls of a module in the directory `parent`
    /// name, each followed by those that its own module names.
    pub open spec fn dirs(self, parent: Seq<char>) -> Seq<Seq<char>>
        decreases self,
    {
        match self.calls {
            None => Seq::empty(),
            Some(calls) => Self::dirs_of(calls, parent),
        }
    }

    /// The directories that `calls` name, made from the directory `parent`.
    pub open spec fn dirs_of(calls: Seq<(Seq<char>, CallView)>, parent: Seq<char>) -> Seq<
        Seq<char>,
    >
        decreases calls,
    {
        if calls.len() == 0 {
            Seq::empty()
        } else {
            let dir = joined(parent, calls.last().1.source);
            Self::dirs_of(calls.drop_last(), parent) + seq![dir] + calls.last().1.module.dirs(dir)
        }
    }
}

impl ModuleCall {
    /// The tree of this call, named `name`, made from the directory `parent`.
    pub fn into_tree(self, name: String, parent: &str, known: &KnownPaths) -> (tree: OrderedTree<
        TreeNode,
    >)
        ensures
            tree@ == self@.tree(name@, parent@, known@),
        decreases self,
    {
        let dir = join(parent, self.source.as_str());
        let source = resolve(dir.as_str(), known.get(dir.as_str()));
        let node = TreeNode { name, count: self.count, for_each: self.for_each, source };
        let children = self.module.into_trees(dir.as_str(), known);
        OrderedTree::new(node).with_leaves(children)
    }
}

impl Module {
    /// The trees of the calls that this module makes from the directory
    /// `parent`, one for each call and in their order.
    pub fn into_trees(self, parent: &str, known: &KnownPaths) -> (trees: Vec<
        OrderedTree<TreeNode>,
    >)
        ensures
            views(trees@) == self@.trees(parent@, known@),
        decreases self,
    {
        let mut trees: Vec<OrderedTree<TreeNode>> = Vec::new();
        match self.module_calls {
            None => {},
            Some(calls) => {
                let ghost all = calls@;
                for pair in it: calls
                    invariant
                        it.seq() == all,
                        all == self.module_calls->0@,
                        self.module_calls is Some,
                        views(trees@) == ModuleView::trees_of(
                            calls_view(all.take(it.index() as int)),
                            parent@,
                            known@,
                        ),
                {
                    let ghost before = all.take(it.index() as int);
                    let ghost after = all.take(it.index() + 1);
                    assert(after.drop_last() == before);
                    assert(calls_view(after).drop_last() == calls_view(before));
                    let ghost grown = trees@;
                    let (name, call) = pair;
                    let tree = call.into_tree(name, parent, known);
                    trees.push(tree);
                    assert(trees@.drop_last() == grown);
                }
                assert(all.take(all.len() as int) == all);
            },
        }
        trees
    }

    /// Appends to `found` the directories that the calls of this module name,
    /// seen from the directory `parent`.
    fn collect_dirs(&self, parent: &str, found: &mut Vec<String>)
        ensures
            texts(final(found)@) == texts(old(found)@) + self@.dirs(parent@),
        decreases self,
    {
        match &self.module_calls {
            None => {},
            Some(calls) => {
                let mut i: usize = 0;
                while i < calls.len()
                    invariant
                        i <= calls.len(),
                        self.module_calls is Some,
                        self.module_calls->0 == *calls,
                        texts(found@) == texts(old(found)@) + ModuleView::dirs_of(
                            calls_view(calls@.take(i as int)),
                            parent@,
                        ),
                    decreases calls.len() - i,
                {
                    let ghost before = calls@.take(i as int);
                    let ghost after = calls@.take(i + 1);
                    let ghost start = found@;
                    assert(after.drop_last() == before);
                    assert(calls_view(after).drop_last() == calls_view(before));
                    assert(calls_view(after) == calls_view(before).push(
                        (calls[i as int].0@, calls[i as int].1@),
                    ));
                    let dir = join(parent, calls[i].1.source.as_str());
                    let below = dir.clone();
                    found.push(dir);
                    assert(found@.drop_last() == start);
                    calls[i].1.module.collect_dirs(below.as_str(), found);
                    assert(texts(found@) =~= texts(old(found)@) + (ModuleView::dirs_of(
                        calls_view(before),
                        parent@,
                    ) + seq![below@] + calls[i as int].1@.module.dirs(below@)));
                    i = i + 1;
                }
                assert(calls@.take(i as int) == calls@);
            },
        }
    }

    /// The directories that the calls of this module and of the modules below
    /// it name, seen from the directory `parent`: those whose canonical form
    /// `into_trees` asks for.
    pub fn declared_dirs(&self, parent: &str) -> (dirs: Vec<String>)
        ensures
            texts(dirs@) == self@.dirs(parent@),
    {
        let mut dirs: Vec<String> = Vec::new();
        self.collect_dirs(parent, &mut dirs);
        dirs
    }
}

impl ModuleDocument {
    /// The tree of the project in the directory `base`.
    pub fn into_tree(self, base: &str, known: &KnownPaths) -> (tree: OrderedTree<TreeNode>)
        ensures
            tree@ == self@.project_tree(base@, known@),
    {
        proof {
            reveal_strlit("*");
        }
        assert("*"@ =~= seq!['*']);
        let root = TreeNode {
            name: "*".to_owned(),
            count: None,
            for_each: None,
            source: base.as_bytes_vec(),
        };
        let children = self.root_module.into_trees(base, known);
        OrderedTree::new(root).with_leaves(children)
    }

    /// The directories whose canonical form `into_tree` asks for.
    pub fn declared_dirs(&self, base: &str) -> (dirs: Vec<String>)
        ensures
            texts(dirs@) == self@.dirs(base@),
    {
        self.root_module.declared_dirs(base)
    }
}

} // verus!
