//! Parsing GLSL source with tree-sitter into the syntax-tree model.
//!
//! tree-sitter's GLSL parse of a source text is named `glsl_nodes`: the
//! nodes in preorder, each with its kind, field name, depth, byte range,
//! positions and number of descendants. The arena of a parsed file is
//! derived from those facts: a node's parent is the last earlier node one
//! level up, its sibling index counts the earlier nodes with the same
//! parent, and its subtree ends after its descendants.

use vstd::prelude::*;
use tree_sitter::{Parser, Tree};
use crate::syntax::{Point, SyntaxNode, SyntaxTree, collect, last_where, lemma_last_where, node_ok, parts_wf, utf8_bytes};
use vstd::utf8::is_char_boundary;

verus! {

#[verifier::external_type_specification]
#[verifier::external_body]
pub struct ExParser(Parser);

#[verifier::external_type_specification]
#[verifier::external_body]
pub struct ExTree(Tree);

/// What tree-sitter reports of one node: kind, field name, depth, start and
/// end byte, start and end position, and number of descendants (the node
/// itself included).
pub type NodeFacts = (Seq<char>, Option<Seq<char>>, u32, usize, usize, Point, Point, usize);

/// The nodes, in preorder, that tree-sitter's GLSL grammar parses `source`
/// into.
pub uninterp spec fn glsl_nodes(source: Seq<char>) -> Seq<NodeFacts>;

/// A tree-sitter parser whose language is the GLSL grammar of
/// `tree_sitter_glsl`.
pub struct GlslParser {
    parser: Parser,
}

/// A source text together with the tree that a `GlslParser` parsed from it.
pub struct ParsedGlsl {
    source: String,
    tree: Tree,
}

impl ParsedGlsl {
    /// The source text.
    pub closed spec fn source_spec(&self) -> Seq<char> {
        self.source@
    }
}

/// One node as tree-sitter reports it.
pub struct NodeRecord {
    pub kind: String,
    pub field: Option<String>,
    pub depth: u32,
    pub start_byte: usize,
    pub end_byte: usize,
    pub start_point: Point,
    pub end_point: Point,
    pub descendant_count: usize,
}

/// The text of an optional string.
pub open spec fn opt_text(o: Option<String>) -> Option<Seq<char>> {
    match o {
        Some(s) => Some(s@),
        None => None,
    }
}

impl NodeRecord {
    /// The facts that the record holds.
    pub open spec fn facts(&self) -> NodeFacts {
        (
            self.kind@,
            opt_text(self.field),
            self.depth,
            self.start_byte,
            self.end_byte,
            self.start_point,
            self.end_point,
            self.descendant_count,
        )
    }
}

/// `Parser::new` followed by `Parser::set_language` with the GLSL grammar of
/// `tree_sitter_glsl`; the language's ABI version is one that the parser
/// accepts, so the `unwrap` does not fail.
#[verifier::external_body]
fn glsl_parser() -> Parser {
    let mut parser = Parser::new();
    parser.set_language(&tree_sitter_glsl::LANGUAGE_GLSL.into()).unwrap();
    parser
}

/// `Parser::parse` of `source` with no earlier tree. It returns `None` only
/// for a parser without a language, and a `GlslParser` always has one, so
/// the `unwrap` does not fail. The tree is kept with its source, whose
/// nodes the accessors below read.
#[verifier::external_body]
fn parse_source(parser: &mut GlslParser, source: String) -> (r: ParsedGlsl)
    ensures
        r.source_spec() == source@,
{
    let tree = parser.parser.parse(source.as_str(), None).unwrap();
    ParsedGlsl { source, tree }
}

/// `Node::descendant_count` of the root node: the number of nodes that the
/// parse of the source has.
#[verifier::external_body]
fn parsed_node_count(p: &ParsedGlsl) -> (r: usize)
    ensures
        r == glsl_nodes(p.source_spec()).len(),
{
    p.tree.root_node().descendant_count()
}

/// The node at preorder index `i` of the parse of the source: a
/// `TreeCursor` from the root moved there with `goto_descendant`, and its
/// `field_name` and `depth`, with the node's `kind`, `start_byte`,
/// `end_byte`, `start_position`, `end_position` and `descendant_count`.
#[verifier::external_body]
fn parsed_node(p: &ParsedGlsl, i: usize) -> (r: NodeRecord)
    requires
        i < glsl_nodes(p.source_spec()).len(),
    ensures
        r.facts() == glsl_nodes(p.source_spec())[i as int],
{
    let mut cursor = p.tree.walk();
    cursor.goto_descendant(i);
    let node = cursor.node();
    let (s, e) = (node.start_position(), node.end_position());
    NodeRecord {
        kind: node.kind().to_string(),
        field: cursor.field_name().map(|f| f.to_string()),
        depth: cursor.depth(),
        start_byte: node.start_byte(),
        end_byte: node.end_byte(),
        start_point: Point { row: s.row, column: s.column },
        end_point: Point { row: e.row, column: e.column },
        descendant_count: node.descendant_count(),
    }
}

impl GlslParser {
    /// A parser for GLSL.
    pub fn new() -> GlslParser {
        GlslParser { parser: glsl_parser() }
    }
}

/// Whether node `j` of the facts lies at depth `d`.
pub open spec fn at_depth(f: Seq<NodeFacts>, d: int) -> spec_fn(int) -> bool {
    |j: int| f[j].2 == d
}

/// The parent of node `i`: the last earlier node one level up; none for a
/// node at depth zero.
pub open spec fn parent_of(f: Seq<NodeFacts>, i: int) -> Option<int> {
    if f[i].2 == 0 {
        None
    } else {
        last_where(0, i, at_depth(f, f[i].2 - 1))
    }
}

/// Whether node `j` has the parent `p`.
pub open spec fn has_parent(f: Seq<NodeFacts>, p: Option<int>) -> spec_fn(int) -> bool {
    |j: int| parent_of(f, j) == p
}

/// The position of node `i` among the children of its parent: the number
/// of earlier nodes with the same parent.
pub open spec fn sibling_of(f: Seq<NodeFacts>, i: int) -> int {
    collect(0, i, has_parent(f, parent_of(f, i))).len() as int
}

/// One past the last node of the subtree of node `i`, as far as `usize`
/// reaches.
pub open spec fn subtree_end_of(f: Seq<NodeFacts>, i: int) -> int {
    if i + f[i].7 <= usize::MAX {
        i + f[i].7
    } else {
        usize::MAX as int
    }
}

/// Whether `node` is node `i` as the facts describe it.
pub open spec fn node_mirrors(node: SyntaxNode, f: Seq<NodeFacts>, i: int) -> bool {
    &&& node.kind@ == f[i].0
    &&& opt_text(node.field) == f[i].1
    &&& match node.parent {
        Some(q) => parent_of(f, i) == Some(q as int),
        None => parent_of(f, i) is None,
    }
    &&& node.sibling_index == sibling_of(f, i)
    &&& node.start_byte == f[i].3
    &&& node.end_byte == f[i].4
    &&& node.start_point == f[i].5
    &&& node.end_point == f[i].6
    &&& node.subtree_end == subtree_end_of(f, i)
}

/// Whether a node list is the arena that the facts describe.
pub open spec fn mirrors(nodes: Seq<SyntaxNode>, f: Seq<NodeFacts>) -> bool {
    &&& nodes.len() == f.len()
    &&& forall|i: int| 0 <= i < f.len() ==> #[trigger] node_mirrors(nodes[i], f, i)
}

/// What node `i` of the arena that the facts describe must satisfy in a
/// source with UTF-8 bytes `bytes` (see `node_ok`).
pub open spec fn facts_node_ok(bytes: Seq<u8>, f: Seq<NodeFacts>, i: int) -> bool {
    &&& f[i].3 <= f[i].4
    &&& f[i].4 <= bytes.len()
    &&& is_char_boundary(bytes, f[i].3 as int)
    &&& is_char_boundary(bytes, f[i].4 as int)
    &&& i < subtree_end_of(f, i) <= f.len()
    &&& match parent_of(f, i) {
        Some(p) => {
            &&& p < i
            &&& i < subtree_end_of(f, p)
            &&& subtree_end_of(f, i) <= subtree_end_of(f, p)
            &&& f[p].3 <= f[i].3
            &&& f[i].4 <= f[p].4
        },
        None => i == 0,
    }
}

/// Whether the arena that the facts describe is a well-formed tree of
/// `source`.
pub open spec fn facts_wf(source: Seq<char>, f: Seq<NodeFacts>) -> bool {
    &&& f.len() > 0
    &&& forall|i: int| 0 <= i < f.len() ==> #[trigger] facts_node_ok(utf8_bytes(source), f, i)
}

/// The arena that the facts describe is well formed exactly when the facts
/// say so.
proof fn lemma_mirrors_wf(source: Seq<char>, nodes: Seq<SyntaxNode>, f: Seq<NodeFacts>)
    requires
        mirrors(nodes, f),
    ensures
        parts_wf(source, nodes) <==> facts_wf(source, f),
{
    let b = utf8_bytes(source);
    assert forall|i: int| 0 <= i < f.len() implies (#[trigger] node_ok(b, nodes, i)
        <==> facts_node_ok(b, f, i)) by {
        assert(node_mirrors(nodes[i], f, i));
        match parent_of(f, i) {
            Some(p) => {
                if 0 <= p < f.len() {
                    assert(node_mirrors(nodes[p], f, p));
                }
                if node_ok(b, nodes, i) || facts_node_ok(b, f, i) {
                    assert(p < i);
                    assert(node_mirrors(nodes[p], f, p));
                }
            },
            None => {},
        }
    }
    if parts_wf(source, nodes) {
        assert forall|i: int| 0 <= i < f.len() implies #[trigger] facts_node_ok(b, f, i) by {
            assert(node_ok(b, nodes, i));
        }
    }
    if facts_wf(source, f) {
        assert forall|i: int| 0 <= i < nodes.len() implies #[trigger] node_ok(b, nodes, i) by {
            assert(facts_node_ok(b, f, i));
        }
    }
}

/// Lays out the parse of a source as an arena in preorder, and checks that
/// it is well formed.
pub fn build_tree(parsed: &ParsedGlsl) -> (r: Option<SyntaxTree>)
    ensures
        r is Some <==> facts_wf(parsed.source_spec(), glsl_nodes(parsed.source_spec())),
        r matches Some(t) ==> t.wf() && t.source_spec() == parsed.source_spec() && mirrors(
            t.nodes_spec(),
            glsl_nodes(parsed.source_spec()),
        ),
{
    let ghost f = glsl_nodes(parsed.source_spec());
    let n = parsed_node_count(parsed);
    let mut nodes: Vec<SyntaxNode> = Vec::new();
    let mut last_at_depth: Vec<Option<usize>> = Vec::new();
    let mut child_counts: Vec<usize> = Vec::new();
    let mut root_count: usize = 0;
    let mut i: usize = 0;
    while i < n
        invariant
            n == f.len(),
            f == glsl_nodes(parsed.source_spec()),
            i <= n,
            nodes@.len() == i,
            child_counts@.len() == i,
            forall|j: int| 0 <= j < i ==> #[trigger] node_mirrors(nodes@[j], f, j),
            forall|q: int|
                0 <= q < i ==> #[trigger] child_counts@[q] == collect(0, i as int, has_parent(f, Some(q))).len(),
            root_count == collect(0, i as int, has_parent(f, None)).len(),
            forall|d: int|
                0 <= d < last_at_depth@.len() ==> #[trigger] last_at_depth@[d] matches Some(k) && last_where(0, i as int, at_depth(f, d)) == Some(k as int)
                    || last_at_depth@[d] is None && last_where(0, i as int, at_depth(f, d)) is None,
            forall|d: int|
                d >= last_at_depth@.len() ==> #[trigger] last_where(0, i as int, at_depth(f, d)) is None,
        decreases n - i,
    {
        let rec = parsed_node(parsed, i);
        let ghost fi = f[i as int];
        assert(rec.facts() == fi);
        // the parent: the last earlier node one level up
        let parent: Option<usize> = if rec.depth == 0 {
            None
        } else {
            let d = (rec.depth - 1) as usize;
            if d < last_at_depth.len() {
                last_at_depth[d]
            } else {
                None
            }
        };
        assert(match parent {
            Some(q) => parent_of(f, i as int) == Some(q as int),
            None => parent_of(f, i as int) is None,
        });
        proof {
            if let Some(q) = parent {
                lemma_last_where(0, i as int, at_depth(f, fi.2 - 1));
            }
        }
        let sibling = match parent {
            Some(q) => {
                let c = child_counts[q];
                proof {
                    lemma_collect_len_bound(0, i as int, has_parent(f, Some(q as int)));
                }
                child_counts.set(q, c + 1);
                c
            },
            None => {
                let c = root_count;
                proof {
                    lemma_collect_len_bound(0, i as int, has_parent(f, None));
                }
                root_count = c + 1;
                c
            },
        };
        child_counts.push(0);
        let d = rec.depth as usize;
        while last_at_depth.len() <= d
            invariant
                forall|e: int|
                    0 <= e < last_at_depth@.len() ==> #[trigger] last_at_depth@[e] matches Some(k) && last_where(0, i as int, at_depth(f, e)) == Some(k as int)
                        || last_at_depth@[e] is None && last_where(0, i as int, at_depth(f, e)) is None,
                forall|e: int|
                    e >= last_at_depth@.len() ==> #[trigger] last_where(0, i as int, at_depth(f, e)) is None,
            decreases d + 1 - last_at_depth@.len(),
        {
            let ghost e = last_at_depth@.len() as int;
            assert(last_where(0, i as int, at_depth(f, e)) is None);
            last_at_depth.push(None);
        }
        last_at_depth.set(d, Some(i));
        let subtree_end = match i.checked_add(rec.descendant_count) {
            Some(e) => e,
            None => usize::MAX,
        };
        let node = SyntaxNode {
            kind: rec.kind,
            field: rec.field,
            parent,
            sibling_index: sibling,
            start_byte: rec.start_byte,
            end_byte: rec.end_byte,
            start_point: rec.start_point,
            end_point: rec.end_point,
            subtree_end,
        };
        nodes.push(node);
        proof {
            let ii = i as int;
            let pi = parent_of(f, ii);
            assert(sibling == sibling_of(f, ii));
            assert(node_mirrors(nodes@[ii], f, ii));
            assert forall|q: int| 0 <= q < ii + 1 implies #[trigger] child_counts@[q] == collect(
                0,
                ii + 1,
                has_parent(f, Some(q)),
            ).len() by {
                if q == ii {
                    assert forall|j: int| 0 <= j < ii + 1 implies !#[trigger] has_parent(f, Some(q))(j) by {
                        lemma_parent_before(f, j);
                    }
                    lemma_collect_none(0, ii + 1, has_parent(f, Some(q)));
                } else {
                    assert(has_parent(f, Some(q))(ii) == (pi == Some(q)));
                }
            }
            assert forall|e: int| 0 <= e < last_at_depth@.len() implies #[trigger] last_at_depth@[e] matches Some(k)
                && last_where(0, ii + 1, at_depth(f, e)) == Some(k as int) || last_at_depth@[e] is None
                && last_where(0, ii + 1, at_depth(f, e)) is None by {
                assert(at_depth(f, e)(ii) == (e == fi.2));
            }
            assert forall|e: int| e >= last_at_depth@.len() implies #[trigger] last_where(
                0,
                ii + 1,
                at_depth(f, e),
            ) is None by {
                assert(last_at_depth@.len() > fi.2);
                assert(!at_depth(f, e)(ii));
                assert(last_where(0, ii, at_depth(f, e)) is None);
            }
        }
        i = i + 1;
    }
    proof {
        lemma_mirrors_wf(parsed.source_spec(), nodes@, f);
    }
    SyntaxTree::from_parts(parsed.source.clone(), nodes)
}

/// A node's parent comes before it.
proof fn lemma_parent_before(f: Seq<NodeFacts>, j: int)
    ensures
        parent_of(f, j) matches Some(p) ==> 0 <= p < j,
{
    if f[j].2 != 0 {
        lemma_last_where(0, j, at_depth(f, f[j].2 - 1));
    }
}

/// Where `p` holds for no index in range, nothing is collected.
proof fn lemma_collect_none(lo: int, hi: int, p: spec_fn(int) -> bool)
    requires
        forall|j: int| lo <= j < hi ==> !#[trigger] p(j),
    ensures
        collect(lo, hi, p).len() == 0,
    decreases hi - lo,
{
    if hi > lo {
        lemma_collect_none(lo, hi - 1, p);
    }
}

/// A collection of indices below `hi` from `lo` has at most `hi - lo` of them.
proof fn lemma_collect_len_bound(lo: int, hi: int, p: spec_fn(int) -> bool)
    requires
        lo <= hi,
    ensures
        collect(lo, hi, p).len() <= hi - lo,
    decreases hi - lo,
{
    if hi > lo {
        lemma_collect_len_bound(lo, hi - 1, p);
    }
}

/// Parses GLSL `source` with tree-sitter and lays it out as a syntax tree:
/// a tree exactly when the parse describes a well-formed arena, and then
/// that arena.
pub fn parse_glsl(parser: &mut GlslParser, source: String) -> (r: Option<SyntaxTree>)
    ensures
        r is Some <==> facts_wf(source@, glsl_nodes(source@)),
        r matches Some(t) ==> t.wf() && t.source_spec() == source@ && mirrors(t.nodes_spec(), glsl_nodes(source@)),
{
    let parsed = parse_source(parser, source);
    build_tree(&parsed)
}

} // verus!
