//! Hover information for the identifier under the cursor.

use vstd::prelude::*;
use crate::syntax::{SyntaxNode, SyntaxTree, node_ok, str_eq};
use crate::text::{trim, trim_spec};
use crate::tree_parser::{TreeParser, current_node_spec};
use crate::position::{Position, line_starts_spec};
use crate::syntax::as_ints;

verus! {

/// The label that a hover shows for a node of kind `kind` whose parent has
/// kind `parent_kind`; `None` when the node gets no hover.
pub open spec fn hover_label_spec(kind: Seq<char>, parent_kind: Seq<char>) -> Option<Seq<char>> {
    if parent_kind == "call_expression"@ || parent_kind == "function_declarator"@ || parent_kind
        == "preproc_function_def"@ {
        Some("Function"@)
    } else if kind == "identifier"@ && (parent_kind == "parameter_declaration"@ || parent_kind
        == "declaration"@ || parent_kind == "init_declarator"@ || parent_kind == "preproc_def"@) {
        Some("Variable"@)
    } else if kind == "field_identifier"@ {
        Some("Field"@)
    } else if kind == "type_identifier"@ && parent_kind == "struct_specifier"@ {
        Some("Struct"@)
    } else if kind == "identifier"@ {
        Some("Identifier"@)
    } else {
        None
    }
}

/// Every identifier gets a hover label, whatever its parent.
pub proof fn lemma_identifiers_labelled(parent_kind: Seq<char>)
    ensures
        hover_label_spec("identifier"@, parent_kind) is Some,
{
}

/// An identifier that a parameter, a declaration, an initialized declarator
/// or a `#define` declares is labelled a variable.
pub proof fn lemma_declared_identifiers_are_variables(parent_kind: Seq<char>)
    requires
        parent_kind == "parameter_declaration"@ || parent_kind == "declaration"@ || parent_kind
            == "init_declarator"@ || parent_kind == "preproc_def"@,
    ensures
        hover_label_spec("identifier"@, parent_kind) == Some("Variable"@),
{
    reveal_strlit("parameter_declaration");
    reveal_strlit("declaration");
    reveal_strlit("init_declarator");
    reveal_strlit("preproc_def");
    reveal_strlit("call_expression");
    reveal_strlit("function_declarator");
    reveal_strlit("preproc_function_def");
    reveal_strlit("identifier");
    reveal_strlit("field_identifier");
    reveal_strlit("type_identifier");
    reveal_strlit("struct_specifier");
    assert("parameter_declaration"@.len() != "call_expression"@.len());
    assert("parameter_declaration"@.len() != "function_declarator"@.len());
    assert("parameter_declaration"@.len() != "preproc_function_def"@.len());
    assert("declaration"@.len() != "call_expression"@.len());
    assert("declaration"@.len() != "function_declarator"@.len());
    assert("declaration"@.len() != "preproc_function_def"@.len());
    assert("init_declarator"@[0] != "call_expression"@[0]);
    assert("init_declarator"@.len() != "function_declarator"@.len());
    assert("init_declarator"@.len() != "preproc_function_def"@.len());
    assert("preproc_def"@.len() != "call_expression"@.len());
    assert("preproc_def"@.len() != "function_declarator"@.len());
    assert("preproc_def"@.len() != "preproc_function_def"@.len());
}

/// A field name is labelled a field unless a call or a function declarator
/// holds it, a struct's name is labelled a struct, and a called name is
/// labelled a function.
pub proof fn lemma_fields_and_structs(parent_kind: Seq<char>)
    ensures
        parent_kind != "call_expression"@ && parent_kind != "function_declarator"@ && parent_kind
            != "preproc_function_def"@ ==> hover_label_spec("field_identifier"@, parent_kind) == Some(
            "Field"@,
        ),
        hover_label_spec("type_identifier"@, "struct_specifier"@) == Some("Struct"@),
        hover_label_spec("identifier"@, "call_expression"@) == Some("Function"@),
{
    reveal_strlit("parameter_declaration");
    reveal_strlit("declaration");
    reveal_strlit("init_declarator");
    reveal_strlit("preproc_def");
    reveal_strlit("call_expression");
    reveal_strlit("function_declarator");
    reveal_strlit("preproc_function_def");
    reveal_strlit("identifier");
    reveal_strlit("field_identifier");
    reveal_strlit("type_identifier");
    reveal_strlit("struct_specifier");
    assert("field_identifier"@.len() != "identifier"@.len());
    assert("type_identifier"@.len() != "identifier"@.len());
    assert("type_identifier"@.len() != "field_identifier"@.len());
    assert("identifier"@.len() != "field_identifier"@.len());
    assert("struct_specifier"@.len() != "call_expression"@.len());
    assert("struct_specifier"@.len() != "function_declarator"@.len());
    assert("struct_specifier"@.len() != "preproc_function_def"@.len());
}

/// Chooses the hover label for `node`, whose parent is `parent`.
pub fn hover_label(node: &SyntaxNode, parent: &SyntaxNode) -> (r: Option<&'static str>)
    ensures
        r is Some <==> hover_label_spec(node.kind@, parent.kind@) is Some,
        r matches Some(s) ==> s@ == hover_label_spec(node.kind@, parent.kind@).unwrap(),
{
    let kind = node.kind.as_str();
    let parent_kind = parent.kind.as_str();
    if str_eq(parent_kind, "call_expression") || str_eq(parent_kind, "function_declarator")
        || str_eq(parent_kind, "preproc_function_def") {
        Some("Function")
    } else if str_eq(kind, "identifier") && (str_eq(parent_kind, "parameter_declaration")
        || str_eq(parent_kind, "declaration") || str_eq(parent_kind, "init_declarator")
        || str_eq(parent_kind, "preproc_def")) {
        Some("Variable")
    } else if str_eq(kind, "field_identifier") {
        Some("Field")
    } else if str_eq(kind, "type_identifier") && str_eq(parent_kind, "struct_specifier") {
        Some("Struct")
    } else if str_eq(kind, "identifier") {
        Some("Identifier")
    } else {
        None
    }
}

/// The Markdown text of a hover: the label in bold, then the snippet in a
/// GLSL code block.
pub open spec fn hover_markdown(label: Seq<char>, snippet: Seq<char>) -> Seq<char> {
    "**"@ + label + "**\n```glsl\n"@ + snippet + "\n```"@
}

/// The text a hover shows: the trimmed source of the snippet node, or, when
/// that is empty, the untrimmed source of the node itself.
pub open spec fn hover_snippet(t: SyntaxTree, cur: int, snippet_node: int) -> Seq<char> {
    let trimmed = trim_spec(t.text(snippet_node));
    if trimmed.len() == 0 {
        t.text(cur)
    } else {
        trimmed
    }
}

/// The hover for node `cur`, as its Markdown text; `None` when the node has
/// no parent or gets no label.
pub open spec fn hover_spec(t: SyntaxTree, cur: int) -> Option<Seq<char>> {
    match t.node(cur).parent {
        None => None,
        Some(p) => match hover_label_spec(t.kind(cur), t.kind(p as int)) {
            None => None,
            Some(label) => {
                let snippet_node = if t.kind(p as int) == "call_expression"@ {
                    cur
                } else {
                    p as int
                };
                Some(hover_markdown(label, hover_snippet(t, cur, snippet_node)))
            },
        },
    }
}

/// A hover answer: its Markdown text and the node whose range it covers.
pub struct HoverInfo {
    pub markdown: String,
    pub node: usize,
}

impl TreeParser {
    /// The hover for the node under the cursor at an editor position.
    pub fn hover(position: Position, tree: &SyntaxTree, line_mapping: &Vec<usize>) -> (r: Option<HoverInfo>)
        requires
            tree.wf(),
            as_ints(line_mapping@) == line_starts_spec(tree.bytes()),
        ensures
            r is Some <==> (current_node_spec(*tree, position) matches Some(cur) && hover_spec(
                *tree,
                cur,
            ) is Some),
            r matches Some(h) ==> current_node_spec(*tree, position) == Some(h.node as int)
                && h.markdown@ == hover_spec(*tree, h.node as int).unwrap(),
    {
        let cur = match Self::current_node_fetch(position, tree, line_mapping) {
            Some(c) => c,
            None => return None,
        };
        Self::hover_node(tree, cur)
    }

    /// The hover for node `cur`.
    pub fn hover_node(tree: &SyntaxTree, cur: usize) -> (r: Option<HoverInfo>)
        requires
            tree.wf(),
            cur < tree.len(),
        ensures
            r is Some <==> hover_spec(*tree, cur as int) is Some,
            r matches Some(h) ==> h.node == cur && h.markdown@ == hover_spec(
                *tree,
                cur as int,
            ).unwrap(),
    {
        let node = tree.get(cur);
        let p = match node.parent {
            Some(p) => p,
            None => return None,
        };
        assert(node_ok(tree.bytes(), tree.nodes_spec(), cur as int));
        let parent = tree.get(p);
        let label = match hover_label(node, parent) {
            Some(l) => l,
            None => return None,
        };
        let snippet_node = if str_eq(parent.kind.as_str(), "call_expression") {
            cur
        } else {
            p
        };
        let trimmed = trim(tree.node_text(snippet_node));
        let snippet = if trimmed.is_empty() {
            tree.node_text(cur)
        } else {
            trimmed
        };
        let mut markdown = String::new();
        markdown.append("**");
        markdown.append(label);
        markdown.append("**\n```glsl\n");
        markdown.append(snippet);
        markdown.append("\n```");
        assert(markdown@ =~= hover_markdown(label@, snippet@));
        Some(HoverInfo { markdown, node: cur })
    }
}

} // verus!
