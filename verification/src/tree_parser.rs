//! Answers to editor requests that read a file's syntax tree.

pub mod definition;
pub mod hover;
pub mod reference;

use vstd::prelude::*;
use crate::syntax::{SyntaxTree, as_ints, last_where};
use crate::position::{Position, line_starts_spec, offset_at, offset_spec};

verus! {

/// The namespace of the requests that read a syntax tree.
pub struct TreeParser;

/// The node under the cursor: the last node in preorder, and so the deepest
/// one, whose byte range holds `offset`.
pub open spec fn node_at_spec(t: SyntaxTree, offset: int) -> Option<int> {
    last_where(0, t.len() as int, holds_offset(t, offset))
}

/// Whether a node's byte range holds `offset`.
pub open spec fn holds_offset(t: SyntaxTree, offset: int) -> spec_fn(int) -> bool {
    |i: int| t.node(i).start_byte <= offset && offset < t.node(i).end_byte
}

/// The node under the cursor at an editor position.
pub open spec fn current_node_spec(t: SyntaxTree, position: Position) -> Option<int> {
    match offset_spec(t.bytes(), position.line as int, position.character as int) {
        Some(offset) => node_at_spec(t, offset),
        None => None,
    }
}

impl TreeParser {
    /// Finds the node under the cursor at an editor position, given the
    /// line starts of the tree's source.
    pub fn current_node_fetch(position: Position, tree: &SyntaxTree, line_mapping: &Vec<usize>) -> (r: Option<usize>)
        requires
            as_ints(line_mapping@) == line_starts_spec(tree.bytes()),
        ensures
            r is Some <==> current_node_spec(*tree, position) is Some,
            r matches Some(i) ==> current_node_spec(*tree, position) == Some(i as int) && i
                < tree.len(),
    {
        let offset = match offset_at(tree.source(), line_mapping, position) {
            Some(o) => o,
            None => return None,
        };
        Self::node_at(tree, offset)
    }

    /// Finds the node under the cursor at byte `offset`.
    pub fn node_at(tree: &SyntaxTree, offset: usize) -> (r: Option<usize>)
        ensures
            r is Some <==> node_at_spec(*tree, offset as int) is Some,
            r matches Some(i) ==> node_at_spec(*tree, offset as int) == Some(i as int) && i
                < tree.len(),
    {
        let ghost p = holds_offset(*tree, offset as int);
        let mut k = tree.node_count();
        while k > 0
            invariant
                k <= tree.len(),
                p == holds_offset(*tree, offset as int),
                last_where(0, tree.len() as int, p) == last_where(0, k as int, p),
            decreases k,
        {
            let node = tree.get(k - 1);
            if node.start_byte <= offset && offset < node.end_byte {
                assert(p((k - 1) as int));
                return Some(k - 1);
            }
            k = k - 1;
        }
        None
    }
}

} // verus!
