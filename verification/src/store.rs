//! The files the server holds parsed: each is kept under its path, with its
//! syntax tree and the byte offsets of its lines.

use vstd::prelude::*;
use vstd::string::StringSliceAdditionalSpecFns;
use hashbrown::HashMap;
use crate::parse::{GlslParser, facts_wf, glsl_nodes, mirrors, parse_glsl};
use crate::position::lemma_line_starts;
use crate::position::{line_mapping, line_starts_spec};
use crate::syntax::{Point, SyntaxTree, as_ints, utf8_bytes};

verus! {

/// An open file: its syntax tree and the byte offsets at which its lines start.
pub struct TempFile {
    pub tree: SyntaxTree,
    pub line_mapping: Vec<usize>,
}

/// Whether `t` is the fallback tree of its source: one `translation_unit`
/// node over all of it, ending on the last line at the column after its
/// last byte.
pub open spec fn whole_tree(t: SyntaxTree) -> bool {
    let starts = line_starts_spec(t.bytes());
    &&& t.len() == 1
    &&& t.node(0).kind@ == "translation_unit"@
    &&& t.node(0).field is None
    &&& t.node(0).parent is None
    &&& t.node(0).start_byte == 0
    &&& t.node(0).end_byte == t.bytes().len()
    &&& t.node(0).start_point == (Point { row: 0, column: 0 })
    &&& t.node(0).end_point.row == starts.len() - 1
    &&& t.node(0).end_point.column == t.bytes().len() - starts[starts.len() - 1]
}

/// Whether `f` holds `content` parsed: the arena of tree-sitter's parse of
/// it when that is a well-formed tree, the fallback tree otherwise.
pub open spec fn holds_parse(f: TempFile, content: Seq<char>) -> bool {
    &&& f.wf()
    &&& f.tree.source_spec() == content
    &&& facts_wf(content, glsl_nodes(content)) ==> mirrors(f.tree.nodes_spec(), glsl_nodes(content))
    &&& !facts_wf(content, glsl_nodes(content)) ==> whole_tree(f.tree)
}

impl TempFile {
    /// The tree is well formed and the line starts are those of its source.
    pub open spec fn wf(&self) -> bool {
        &&& self.tree.wf()
        &&& as_ints(self.line_mapping@) == line_starts_spec(self.tree.bytes())
    }

    /// Parses `content` and records its line starts. When tree-sitter's
    /// parse does not describe a well-formed tree, the file holds the
    /// fallback tree, so that every text can be held.
    pub fn new(parser: &mut GlslParser, content: String) -> (r: TempFile)
        ensures
            holds_parse(r, content@),
    {
        let mapping = line_mapping(content.as_str());
        let len = content.as_str().as_bytes().len();
        let ghost text = content@;
        let tree = match parse_glsl(parser, content.clone()) {
            Some(tree) => tree,
            None => {
                proof {
                    lemma_line_starts(utf8_bytes(content@));
                }
                assert(as_ints(mapping@).len() >= 1);
                let last = mapping.len() - 1;
                assert(as_ints(mapping@)[last as int] == mapping@[last as int]);
                let end_point = Point { row: last, column: len - mapping[last] };
                SyntaxTree::whole(content, "translation_unit".to_string(), end_point)
            },
        };
        TempFile { tree, line_mapping: mapping }
    }
}

/// The open files by path, held in a `hashbrown::HashMap`, whose contents
/// `open_files` names.
#[verifier::external_body]
pub struct TempFiles {
    map: HashMap<String, TempFile>,
}

/// What a map of open files holds: the file under each path.
pub uninterp spec fn open_files(m: TempFiles) -> Map<Seq<char>, TempFile>;

/// `HashMap::new`: a map that holds nothing.
#[verifier::external_body]
pub(crate) fn files_new() -> (r: TempFiles)
    ensures
        open_files(r).dom() == Set::<Seq<char>>::empty(),
{
    TempFiles { map: HashMap::new() }
}

/// `HashMap::get` with a `&str` key: the file held under the path equal to
/// `path`, if any.
#[verifier::external_body]
pub(crate) fn files_get<'a>(m: &'a TempFiles, path: &str) -> (r: Option<&'a TempFile>)
    ensures
        r is Some <==> open_files(*m).contains_key(path@),
        r matches Some(f) ==> *f == open_files(*m)[path@],
{
    m.map.get(path)
}

/// `HashMap::insert`: afterwards `path` holds `file`, whatever it held
/// before, and every other path holds what it held; the file it held
/// before, if any, is returned.
#[verifier::external_body]
pub(crate) fn files_insert(m: &mut TempFiles, path: String, file: TempFile) -> (r: Option<TempFile>)
    ensures
        open_files(*final(m)) == open_files(*old(m)).insert(path@, file),
        r is Some <==> open_files(*old(m)).contains_key(path@),
        r matches Some(f) ==> f == open_files(*old(m))[path@],
{
    m.map.insert(path, file)
}

/// `HashMap::remove` with a `&str` key: the file that the path equal to
/// `path` held, if any, which the map holds no more.
#[verifier::external_body]
pub(crate) fn files_remove(m: &mut TempFiles, path: &str) -> (r: Option<TempFile>)
    ensures
        open_files(*final(m)) == open_files(*old(m)).remove(path@),
        r is Some <==> open_files(*old(m)).contains_key(path@),
        r matches Some(f) ==> f == open_files(*old(m))[path@],
{
    m.map.remove(path)
}

} // verus!
