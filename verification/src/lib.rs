//! Module trees of an infrastructure project: the calls of a root module, each
//! with its repetition and the directory it resolves to, drawn as a tree.
//!
//! A [`schema::ModuleDocument`] holds the module calls of a project.
//! [`schema::ModuleDocument::declared_dirs`] lists the directories that the
//! calls name; the caller looks each of them up on disk and records the
//! canonical forms it finds in a [`resolve::KnownPaths`].
//! [`schema::ModuleDocument::into_tree`] then makes the tree of the project, a
//! [`tree::OrderedTree`] of [`node::TreeNode`]s, in which a directory without a
//! canonical form stands as it was declared, and
//! [`tree::OrderedTree::render`] draws the tree as text. The library itself
//! reads no file and writes nothing.
//!
//! Every function is verified against a contract over plain values: the
//! `view` of each type, and the spec functions beside it. What is assumed of
//! the `termtree` crate, which draws the tree, and of two functions of the
//! standard library is marked as such where it stands. The module [`laws`]
//! states what holds of every tree.

pub mod args;
pub mod builder;
pub mod draw;
pub mod laws;
pub mod node;
pub mod path;
pub mod render;
pub mod resolve;
pub mod schema;
pub mod text;
pub mod tree;
