//! What holds of every module tree, stated over the plain values of documents,
//! trees and texts.

use crate::node::{NodeView, RenderError};
use crate::path::joined;
use crate::render::{labelled, labelled_all, renders_to};
use crate::resolve::{lookup, resolved};
use crate::schema::{CallView, ModuleView};
use crate::text::{decimal, spaced};
use crate::tree::TreeView;
use vstd::prelude::*;
use vstd::utf8::{encode_utf8, encode_utf8_decode_utf8, encode_utf8_valid_utf8};

verus! {

/// The trees of a sequence of calls are as many as the calls, and the tree at
/// each place is the tree of the call at that place.
pub proof fn lemma_trees_follow_calls(
    calls: Seq<(Seq<char>, CallView)>,
    parent: Seq<char>,
    known: Map<Seq<char>, Seq<u8>>,
)
    ensures
        ModuleView::trees_of(calls, parent, known).len() == calls.len(),
        forall|i: int|
            0 <= i < calls.len() ==> #[trigger] ModuleView::trees_of(calls, parent, known)[i]
                == calls[i].1.tree(calls[i].0, parent, known),
    decreases calls.len(),
{
    if calls.len() > 0 {
        lemma_trees_follow_calls(calls.drop_last(), parent, known);
    }
}

/// The trees of lines of a sequence of trees are as many as the trees, and the
/// one at each place is the tree of lines of the tree at that place.
pub proof fn lemma_labelled_one_by_one(trees: Seq<TreeView<NodeView>>)
    requires
        labelled_all(trees) is Some,
    ensures
        labelled_all(trees)->0.len() == trees.len(),
        forall|i: int|
            0 <= i < trees.len() ==> labelled(#[trigger] trees[i]) == Some(
                labelled_all(trees)->0[i],
            ),
    decreases trees.len(),
{
    if trees.len() > 0 {
        lemma_labelled_one_by_one(trees.drop_last());
        assert forall|i: int| 0 <= i < trees.len() implies labelled(#[trigger] trees[i]) == Some(
            labelled_all(trees)->0[i],
        ) by {
            if i < trees.len() - 1 {
                assert(trees.drop_last()[i] == trees[i]);
            }
        }
    }
}

/// Structure is kept: the root of a project's tree has one child for each call
/// of the root module, in the order of the calls and under their names; and
/// where the tree has lines, the root of the tree of lines has the lines of
/// those children, in that order.
pub proof fn lemma_root_has_a_child_for_each_call(
    document: ModuleView,
    calls: Seq<(Seq<char>, CallView)>,
    base: Seq<char>,
    known: Map<Seq<char>, Seq<u8>>,
)
    requires
        document.calls == Some(calls),
    ensures
        document.project_tree(base, known).children.len() == calls.len(),
        forall|i: int|
            0 <= i < calls.len() ==> (#[trigger] document.project_tree(
                base,
                known,
            ).children[i]).value.name == calls[i].0,
        labelled(document.project_tree(base, known)) matches Some(lines) ==> {
            &&& lines.children.len() == calls.len()
            &&& forall|i: int|
                0 <= i < calls.len() ==> Some((#[trigger] lines.children[i]).value)
                    == document.project_tree(base, known).children[i].value.label()
        },
{
    lemma_trees_follow_calls(calls, base, known);
    let tree = document.project_tree(base, known);
    if labelled(tree) is Some {
        lemma_labelled_one_by_one(tree.children);
    }
}

/// A module without a mapping of calls, or with an empty one, gives a root
/// without children.
pub proof fn lemma_root_of_a_module_without_calls(
    document: ModuleView,
    base: Seq<char>,
    known: Map<Seq<char>, Seq<u8>>,
)
    requires
        document.calls matches Some(calls) ==> calls.len() == 0,
    ensures
        document.project_tree(base, known).children.len() == 0,
{
}

/// The trees of the calls of a module are as deep as the calls nest.
pub proof fn lemma_trees_as_deep_as_calls(
    module: ModuleView,
    parent: Seq<char>,
    known: Map<Seq<char>, Seq<u8>>,
)
    ensures
        TreeView::deepest(module.trees(parent, known)) == module.depth(),
    decreases module,
{
    match module.calls {
        None => {},
        Some(calls) => {
            lemma_trees_of_as_deep_as_calls(calls, parent, known);
        },
    }
}

/// The trees of a sequence of calls are as deep as the calls nest.
pub proof fn lemma_trees_of_as_deep_as_calls(
    calls: Seq<(Seq<char>, CallView)>,
    parent: Seq<char>,
    known: Map<Seq<char>, Seq<u8>>,
)
    ensures
        TreeView::deepest(ModuleView::trees_of(calls, parent, known)) == ModuleView::deepest(calls),
    decreases calls,
{
    if calls.len() > 0 {
        lemma_trees_of_as_deep_as_calls(calls.drop_last(), parent, known);
        let last = calls.last();
        let dir = joined(parent, last.1.source);
        lemma_trees_as_deep_as_calls(last.1.module, dir, known);
        let trees = ModuleView::trees_of(calls, parent, known);
        let tree = last.1.tree(last.0, parent, known);
        assert(trees.drop_last() == ModuleView::trees_of(calls.drop_last(), parent, known));
        assert(tree.depth() == 1 + last.1.module.depth());
    }
}

/// A tree of lines is as deep as the tree it was made of.
pub proof fn lemma_lines_as_deep_as_tree(tree: TreeView<NodeView>)
    requires
        labelled(tree) is Some,
    ensures
        labelled(tree)->0.depth() == tree.depth(),
    decreases tree,
{
    lemma_all_lines_as_deep_as_trees(tree.children);
}

/// The trees of lines of a sequence of trees are as deep as those trees.
pub proof fn lemma_all_lines_as_deep_as_trees(trees: Seq<TreeView<NodeView>>)
    requires
        labelled_all(trees) is Some,
    ensures
        TreeView::deepest(labelled_all(trees)->0) == TreeView::deepest(trees),
    decreases trees,
{
    if trees.len() > 0 {
        lemma_all_lines_as_deep_as_trees(trees.drop_last());
        lemma_lines_as_deep_as_tree(trees.last());
        let lines = labelled_all(trees)->0;
        assert(lines.drop_last() == labelled_all(trees.drop_last())->0);
    }
}

/// Depth is kept: where the calls of a project nest to the depth d, its tree
/// has d + 1 levels, the root among them, and so has the tree of its lines.
pub proof fn lemma_tree_is_one_deeper_than_document(
    document: ModuleView,
    base: Seq<char>,
    known: Map<Seq<char>, Seq<u8>>,
)
    ensures
        document.project_tree(base, known).depth() == document.depth() + 1,
        labelled(document.project_tree(base, known)) matches Some(lines) ==> lines.depth()
            == document.depth() + 1,
{
    lemma_trees_as_deep_as_calls(document, base, known);
    if labelled(document.project_tree(base, known)) is Some {
        lemma_lines_as_deep_as_tree(document.project_tree(base, known));
    }
}

/// Of the two ways to show a repetition exactly one is taken: a counted call
/// shows its count in square brackets, whatever its keys; a call that is keyed
/// and not counted shows its keys in braces, with one space between them; a
/// call that is neither shows nothing behind its name.
pub proof fn lemma_one_form_of_suffix(node: NodeView)
    ensures
        node.count matches Some(n) ==> node.suffix() == seq!['['] + decimal(n) + seq![']'],
        node.count is None ==> (node.for_each matches Some(keys) ==> node.suffix() == seq!['{']
            + spaced(keys) + seq!['}']),
        node.count is None && node.for_each is None ==> node.suffix() == Seq::<char>::empty(),
{
}

/// A call keyed by no keys at all shows empty braces, which a call that is not
/// keyed does not.
pub proof fn lemma_empty_keys_are_shown(node: NodeView)
    requires
        node.count is None,
        node.for_each == Some(Seq::<Seq<char>>::empty()),
    ensures
        node.suffix() == seq!['{', '}'],
        node.suffix() != (NodeView { for_each: None, ..node }).suffix(),
{
}

/// Path fallback: a call whose directory has no known canonical form gets the
/// declared directory itself, and its line shows that directory as text.
pub proof fn lemma_unknown_dir_is_shown_as_declared(
    call: CallView,
    name: Seq<char>,
    parent: Seq<char>,
    known: Map<Seq<char>, Seq<u8>>,
)
    requires
        !known.contains_key(joined(parent, call.source)),
    ensures
        call.tree(name, parent, known).value.source == encode_utf8(joined(parent, call.source)),
        call.tree(name, parent, known).value.label() == Some(
            name + call.tree(name, parent, known).value.suffix() + seq![' ', '('] + joined(
                parent,
                call.source,
            ) + seq![')'],
        ),
{
    encode_utf8_valid_utf8(joined(parent, call.source));
    encode_utf8_decode_utf8(joined(parent, call.source));
}

/// The directories that the nodes stand for.
pub open spec fn sources(nodes: Seq<NodeView>) -> Seq<Seq<u8>> {
    Seq::new(nodes.len(), |i: int| nodes[i].source)
}

/// What each of the directories resolves to.
pub open spec fn resolved_all(dirs: Seq<Seq<char>>, known: Map<Seq<char>, Seq<u8>>) -> Seq<
    Seq<u8>,
> {
    Seq::new(dirs.len(), |i: int| resolved(dirs[i], lookup(known, dirs[i])))
}

/// The nodes of the trees of a module stand, from the top down, for what the
/// declared directories of the module resolve to: the canonical form of each
/// that has one, the directory itself of each that has none.
pub proof fn lemma_nodes_resolve_the_declared_dirs(
    module: ModuleView,
    parent: Seq<char>,
    known: Map<Seq<char>, Seq<u8>>,
)
    ensures
        sources(TreeView::values_of(module.trees(parent, known))) == resolved_all(
            module.dirs(parent),
            known,
        ),
    decreases module,
{
    match module.calls {
        None => {},
        Some(calls) => {
            lemma_nodes_resolve_the_dirs_of(calls, parent, known);
        },
    }
}

/// The nodes of the trees of a sequence of calls stand, from the top down, for
/// what the directories of the calls resolve to.
pub proof fn lemma_nodes_resolve_the_dirs_of(
    calls: Seq<(Seq<char>, CallView)>,
    parent: Seq<char>,
    known: Map<Seq<char>, Seq<u8>>,
)
    ensures
        sources(TreeView::values_of(ModuleView::trees_of(calls, parent, known))) == resolved_all(
            ModuleView::dirs_of(calls, parent),
            known,
        ),
    decreases calls,
{
    if calls.len() > 0 {
        let last = calls.last();
        let dir = joined(parent, last.1.source);
        lemma_nodes_resolve_the_dirs_of(calls.drop_last(), parent, known);
        lemma_nodes_resolve_the_declared_dirs(last.1.module, dir, known);
        let trees = ModuleView::trees_of(calls, parent, known);
        let tree = last.1.tree(last.0, parent, known);
        assert(trees.drop_last() == ModuleView::trees_of(calls.drop_last(), parent, known));
        let before = TreeView::values_of(trees.drop_last());
        let below = TreeView::values_of(tree.children);
        assert(TreeView::values_of(trees) == before + tree.values());
        let dirs_before = ModuleView::dirs_of(calls.drop_last(), parent);
        let dirs_below = last.1.module.dirs(dir);
        assert(sources(before + (seq![tree.value] + below)) =~= sources(before) + seq![
            tree.value.source,
        ] + sources(below));
        assert(resolved_all(dirs_before + seq![dir] + dirs_below, known) =~= resolved_all(
            dirs_before,
            known,
        ) + seq![resolved(dir, lookup(known, dir))] + resolved_all(dirs_below, known));
    }
}

/// Rendering is idempotent: two renderings of one tree fail together or give
/// the same text.
pub proof fn lemma_rendering_twice_gives_the_same(
    tree: TreeView<NodeView>,
    first: Result<String, RenderError>,
    second: Result<String, RenderError>,
)
    requires
        renders_to(tree, first),
        renders_to(tree, second),
    ensures
        first is Ok <==> second is Ok,
        first is Ok ==> first->Ok_0@ == second->Ok_0@,
{
}

} // verus!
