//! The syntax-tree model of a shader file.
//!
//! A parsed file is held as an arena of nodes in preorder: the subtree of
//! node `i` is the index range `[i, subtree_end)`, every node but the first
//! has a parent, which comes before it and covers its bytes, and every node
//! covers a byte range of the source that starts and ends on a character
//! boundary.

use vstd::prelude::*;
use vstd::string::*;
use vstd::utf8::*;

verus! {

broadcast use vstd::utf8::group_utf8_lib;

/// A position in the source as a row and a byte column, both zero-based.
#[derive(Clone, Copy, PartialEq, Eq, Structural, Debug)]
pub struct Point {
    pub row: usize,
    pub column: usize,
}

/// One node of a parsed file.
#[derive(Debug)]
pub struct SyntaxNode {
    /// The grammar's name for the node, such as `identifier`.
    pub kind: String,
    /// The name of the field under which the parent holds this node, if any.
    pub field: Option<String>,
    /// The index of the parent node, if any.
    pub parent: Option<usize>,
    /// The position of this node among all children of its parent.
    pub sibling_index: usize,
    pub start_byte: usize,
    pub end_byte: usize,
    pub start_point: Point,
    pub end_point: Point,
    /// One past the index of the last node of this node's subtree.
    pub subtree_end: usize,
}

/// A parsed file: its source text and the nodes of its syntax tree.
pub struct SyntaxTree {
    source: String,
    nodes: Vec<SyntaxNode>,
}

/// The UTF-8 bytes of a text.
pub open spec fn utf8_bytes(s: Seq<char>) -> Seq<u8> {
    encode_utf8(s)
}

/// What a single node must satisfy inside a tree of `n` nodes whose source
/// has the UTF-8 bytes `bytes`.
pub open spec fn node_ok(bytes: Seq<u8>, nodes: Seq<SyntaxNode>, i: int) -> bool {
    let node = nodes[i];
    &&& node.start_byte <= node.end_byte
    &&& node.end_byte <= bytes.len()
    &&& is_char_boundary(bytes, node.start_byte as int)
    &&& is_char_boundary(bytes, node.end_byte as int)
    &&& i < node.subtree_end <= nodes.len()
    &&& match node.parent {
        Some(p) => {
            &&& p < i
            &&& i < nodes[p as int].subtree_end
            &&& node.subtree_end <= nodes[p as int].subtree_end
            &&& nodes[p as int].start_byte <= node.start_byte
            &&& node.end_byte <= nodes[p as int].end_byte
        },
        None => i == 0,
    }
}

/// The conditions under which a source text and a node list form a tree.
pub open spec fn parts_wf(source: Seq<char>, nodes: Seq<SyntaxNode>) -> bool {
    &&& nodes.len() > 0
    &&& forall|i: int| 0 <= i < nodes.len() ==> #[trigger] node_ok(utf8_bytes(source), nodes, i)
}

impl SyntaxTree {
    /// The source text.
    pub closed spec fn source_spec(&self) -> Seq<char> {
        self.source@
    }

    /// The nodes, in preorder.
    pub closed spec fn nodes_spec(&self) -> Seq<SyntaxNode> {
        self.nodes@
    }

    /// The UTF-8 bytes of the source text.
    pub open spec fn bytes(&self) -> Seq<u8> {
        utf8_bytes(self.source_spec())
    }

    /// The number of nodes.
    pub open spec fn len(&self) -> nat {
        self.nodes_spec().len()
    }

    /// Node `i`.
    pub open spec fn node(&self, i: int) -> SyntaxNode {
        self.nodes_spec()[i]
    }

    /// The tree's well-formedness.
    pub open spec fn wf(&self) -> bool {
        parts_wf(self.source_spec(), self.nodes_spec())
    }

    /// The UTF-8 bytes that node `i` covers.
    pub open spec fn text_bytes(&self, i: int) -> Seq<u8> {
        self.bytes().subrange(self.node(i).start_byte as int, self.node(i).end_byte as int)
    }

    /// The characters that node `i` covers.
    pub open spec fn text(&self, i: int) -> Seq<char> {
        decode_utf8(self.text_bytes(i))
    }

    /// The kind of node `i`.
    pub open spec fn kind(&self, i: int) -> Seq<char> {
        self.node(i).kind@
    }

    /// Whether node `j` lies in the subtree of node `i` (`i` itself included).
    pub open spec fn in_subtree(&self, i: int, j: int) -> bool {
        i <= j < self.node(i).subtree_end
    }

    /// Builds a tree from a source text and its nodes in preorder; `None`
    /// when they do not form a well-formed tree.
    pub fn from_parts(source: String, nodes: Vec<SyntaxNode>) -> (r: Option<SyntaxTree>)
        ensures
            r is Some <==> parts_wf(source@, nodes@),
            r matches Some(t) ==> t.source_spec() == source@ && t.nodes_spec() == nodes@ && t.wf(),
    {
        let n = nodes.len();
        if n == 0 {
            return None;
        }
        let len = source.as_str().as_bytes().len();
        let ghost bytes = utf8_bytes(source@);
        assert(len == bytes.len());
        let mut i: usize = 0;
        while i < n
            invariant
                n == nodes@.len(),
                len == bytes.len(),
                bytes == utf8_bytes(source@),
                i <= n,
                forall|k: int| 0 <= k < i ==> #[trigger] node_ok(bytes, nodes@, k),
            decreases n - i,
        {
            let node = &nodes[i];
            if !(node.start_byte <= node.end_byte && node.end_byte <= len) {
                assert(!node_ok(bytes, nodes@, i as int));
                return None;
            }
            if !(source.as_str().is_char_boundary(node.start_byte)
                && source.as_str().is_char_boundary(node.end_byte)) {
                assert(!node_ok(bytes, nodes@, i as int));
                return None;
            }
            if !(i < node.subtree_end && node.subtree_end <= n) {
                assert(!node_ok(bytes, nodes@, i as int));
                return None;
            }
            match node.parent {
                Some(p) => {
                    if !(p < i && i < nodes[p].subtree_end && node.subtree_end <= nodes[p].subtree_end
                        && nodes[p].start_byte <= node.start_byte && node.end_byte <= nodes[p].end_byte) {
                        assert(!node_ok(bytes, nodes@, i as int));
                        return None;
                    }
                },
                None => {
                    if i != 0 {
                        assert(!node_ok(bytes, nodes@, i as int));
                        return None;
                    }
                },
            }
            assert(node_ok(bytes, nodes@, i as int));
            i = i + 1;
        }
        Some(SyntaxTree { source, nodes })
    }

    /// The tree of a single node of kind `kind` that covers all of `source`,
    /// from its start to `end_point`.
    pub fn whole(source: String, kind: String, end_point: Point) -> (r: SyntaxTree)
        ensures
            r.wf(),
            r.source_spec() == source@,
            r.len() == 1,
            r.node(0).kind@ == kind@,
            r.node(0).field is None,
            r.node(0).parent is None,
            r.node(0).sibling_index == 0,
            r.node(0).start_byte == 0,
            r.node(0).end_byte == r.bytes().len(),
            r.node(0).start_point == (Point { row: 0, column: 0 }),
            r.node(0).end_point == end_point,
            r.node(0).subtree_end == 1,
    {
        let len = source.as_str().as_bytes().len();
        let node = SyntaxNode {
            kind,
            field: None,
            parent: None,
            sibling_index: 0,
            start_byte: 0,
            end_byte: len,
            start_point: Point { row: 0, column: 0 },
            end_point,
            subtree_end: 1,
        };
        let mut nodes: Vec<SyntaxNode> = Vec::new();
        nodes.push(node);
        let r = SyntaxTree { source, nodes };
        proof {
            let b = utf8_bytes(r.source@);
            assert(b.len() == len);
            is_char_boundary_start_end_of_seq(b);
            assert(node_ok(b, r.nodes@, 0));
        }
        r
    }

    /// The source text.
    pub fn source(&self) -> (r: &str)
        ensures
            r@ == self.source_spec(),
    {
        self.source.as_str()
    }

    /// The number of nodes.
    pub fn node_count(&self) -> (r: usize)
        ensures
            r == self.len(),
    {
        self.nodes.len()
    }

    /// Node `i`.
    pub fn get(&self, i: usize) -> (r: &SyntaxNode)
        requires
            i < self.len(),
        ensures
            *r == self.node(i as int),
    {
        &self.nodes[i]
    }

    /// The source text that node `i` covers, as `Node::utf8_text` gives it.
    pub fn node_text(&self, i: usize) -> (r: &str)
        requires
            self.wf(),
            i < self.len(),
        ensures
            r@ == self.text(i as int),
            r.spec_bytes() == self.text_bytes(i as int),
    {
        let ghost b = self.bytes();
        let node = &self.nodes[i];
        assert(node_ok(b, self.nodes@, i as int));
        let s = self.source.as_str();
        assert(s.spec_bytes() == b);
        let (_, rest) = s.split_at(node.start_byte);
        let ghost rb = b.subrange(node.start_byte as int, b.len() as int);
        assert(rest.spec_bytes() == rb);
        proof {
            lemma_boundary_in_suffix(b, node.start_byte as int, node.end_byte as int);
        }
        let (text, _) = rest.split_at(node.end_byte - node.start_byte);
        assert(text.spec_bytes() =~= self.text_bytes(i as int));
        text
    }
}

/// The indices `k` with `lo <= k < hi` for which `p` holds, in increasing order.
pub open spec fn collect(lo: int, hi: int, p: spec_fn(int) -> bool) -> Seq<int>
    decreases hi - lo,
{
    if hi <= lo {
        Seq::empty()
    } else if p(hi - 1) {
        collect(lo, hi - 1, p).push(hi - 1)
    } else {
        collect(lo, hi - 1, p)
    }
}

/// The least index `k` with `lo <= k < hi` for which `p` holds.
pub open spec fn first_where(lo: int, hi: int, p: spec_fn(int) -> bool) -> Option<int>
    decreases hi - lo,
{
    if hi <= lo {
        None
    } else if p(lo) {
        Some(lo)
    } else {
        first_where(lo + 1, hi, p)
    }
}

/// The indices of a vector as integers.
pub open spec fn as_ints(v: Seq<usize>) -> Seq<int> {
    v.map_values(|x: usize| x as int)
}

/// The greatest index `k` with `lo <= k < hi` for which `p` holds.
pub open spec fn last_where(lo: int, hi: int, p: spec_fn(int) -> bool) -> Option<int>
    decreases hi - lo,
{
    if hi <= lo {
        None
    } else if p(hi - 1) {
        Some(hi - 1)
    } else {
        last_where(lo, hi - 1, p)
    }
}

/// What `last_where` finds: the index satisfies `p`, and no greater one in
/// range does; when it finds none, no index in range satisfies `p`.
pub proof fn lemma_last_where(lo: int, hi: int, p: spec_fn(int) -> bool)
    ensures
        last_where(lo, hi, p) matches Some(k) ==> lo <= k < hi && p(k) && forall|j: int|
            k < j < hi ==> !#[trigger] p(j),
        last_where(lo, hi, p) is None ==> forall|j: int| lo <= j < hi ==> !#[trigger] p(j),
    decreases hi - lo,
{
    if hi > lo && !p(hi - 1) {
        lemma_last_where(lo, hi - 1, p);
    }
}

/// A character boundary at `e` stays a boundary, at `e - s`, of the suffix
/// that starts at the boundary `s`.
pub proof fn lemma_boundary_in_suffix(b: Seq<u8>, s: int, e: int)
    requires
        valid_utf8(b),
        0 <= s <= e <= b.len(),
        is_char_boundary(b, s),
        is_char_boundary(b, e),
    ensures
        valid_utf8(b.subrange(s, b.len() as int)),
        is_char_boundary(b.subrange(s, b.len() as int), e - s),
{
    let t = b.subrange(s, b.len() as int);
    valid_utf8_split(b, s);
    is_char_boundary_start_end_of_seq(t);
    if e < b.len() {
        assert(t[e - s] == b[e]);
        is_char_boundary_iff_not_is_continuation_byte(b, e);
        is_char_boundary_iff_not_is_continuation_byte(t, e - s);
    } else {
        assert(t.len() == e - s);
    }
}

/// Whether two strings hold the same characters.
pub fn str_eq(a: &str, b: &str) -> (r: bool)
    ensures
        r == (a@ == b@),
{
    let x = a.as_bytes();
    let y = b.as_bytes();
    let r = bytes_eq(x, y);
    proof {
        encode_utf8_decode_utf8(a@);
        encode_utf8_decode_utf8(b@);
    }
    r
}

/// Whether two byte slices are equal.
pub fn bytes_eq(a: &[u8], b: &[u8]) -> (r: bool)
    ensures
        r == (a@ == b@),
{
    if a.len() != b.len() {
        return false;
    }
    let mut i: usize = 0;
    while i < a.len()
        invariant
            a@.len() == b@.len(),
            i <= a@.len(),
            forall|k: int| 0 <= k < i ==> a@[k] == b@[k],
        decreases a@.len() - i,
    {
        if a[i] != b[i] {
            return false;
        }
        i = i + 1;
    }
    assert(a@ =~= b@);
    true
}

} // verus!
