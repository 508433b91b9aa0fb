//! A collapsible tree view for terminal user interfaces.
//!
//! The engine keeps every tree in an arena: a flat store of nodes that refer
//! to one another only by integer index.  An adapter builds the arena from a
//! nested symbol payload in one pre-order pass; pure navigation functions step
//! between siblings and "uncles"; a view layer owns per-node collapse state
//! and a focus cursor; and a renderer lays the visible nodes out as rows,
//! skipping collapsed subtrees.

pub mod symbol;
pub mod tree;
pub mod lsp_tree;
pub mod adapter;
pub mod nav;
pub mod render;
pub mod view;
pub mod widget;
