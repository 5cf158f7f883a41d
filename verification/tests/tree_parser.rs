use tree_sitter::{Node, Query, QueryCursor, StreamingIterator};
use vscode_mcshader::parse::{parse_glsl, GlslParser};
use vscode_mcshader::position::{line_mapping, Position};
use vscode_mcshader::syntax::SyntaxTree;
use vscode_mcshader::tree_parser::reference::{function_ref_pattern, variable_def_pattern, variable_ref_pattern};
use vscode_mcshader::tree_parser::TreeParser;

const SAMPLE: &str = "#version 330
#define SCALE 2.0
uniform float time;
struct Light { vec3 color; float power; };
float helper(float x, float y) {
    float z = x * y;
    {
        float z = z + 1.0;
        x = z;
    }
    return z + SCALE;
}
void main() {
    float a = helper(time, 1.0);
    float b = a, c = b;
    a = b + c;
    Light l;
    l.power = helper(a, SCALE);
    gl_FragColor = vec4(a);
}
";

fn glsl_parser() -> tree_sitter::Parser {
    let mut parser = tree_sitter::Parser::new();
    parser.set_language(&tree_sitter_glsl::LANGUAGE_GLSL.into()).unwrap();
    parser
}

fn tree_of(src: &str) -> SyntaxTree {
    let mut parser = GlslParser::new();
    parse_glsl(&mut parser, src.to_string()).expect("the sample parses")
}

fn ts_tree(src: &str) -> tree_sitter::Tree {
    glsl_parser().parse(src, None).unwrap()
}

/// The query that `variable_def_pattern` describes, with its name predicate
/// grouped with the alternation so that it applies to every alternative.
fn grouped_def_pattern(name: &str) -> String {
    let pattern = variable_def_pattern(name);
    let split = pattern.find("(#match?").unwrap();
    let alternatives = pattern[..split].trim_end();
    let predicate = pattern[split..].trim_end().trim_end_matches(']');
    format!("({}] {})", alternatives, predicate)
}

/// The definition search written with tree-sitter queries.
fn query_resolve<'a>(content: &str, start_node: Node<'a>) -> Option<Node<'a>> {
    let query_str = grouped_def_pattern(start_node.utf8_text(content.as_bytes()).ok()?);
    let query = Query::new(&tree_sitter_glsl::LANGUAGE_GLSL.into(), &query_str).ok()?;
    let mut query_cursor = QueryCursor::new();
    query_cursor.set_byte_range(0..start_node.end_byte());
    let mut parent = Some(start_node);
    while let Some(parent_node) = parent {
        let mut latest_match = None;
        let mut matches = query_cursor.matches(&query, parent_node, content.as_bytes());
        while let Some(query_match) = matches.next() {
            latest_match = query_match.captures().last().map(|capture| capture.node);
        }
        if latest_match.is_some() {
            return latest_match;
        }
        parent = parent_node.parent();
    }
    None
}

fn query_scope(definition: Node<'_>) -> Node<'_> {
    let mut parent = definition.parent();
    while let Some(parent_node) = parent {
        match parent_node.kind() {
            "compound_statement" | "function_definition" | "preproc_function_def" | "translation_unit" => {
                return parent_node
            }
            _ => parent = parent_node.parent(),
        }
    }
    definition
}

fn query_references(content: &str, definition: Node<'_>) -> Vec<(usize, usize)> {
    let query_str = variable_ref_pattern(definition.utf8_text(content.as_bytes()).unwrap());
    let query = Query::new(&tree_sitter_glsl::LANGUAGE_GLSL.into(), &query_str).unwrap();
    let mut query_cursor = QueryCursor::new();
    let scope = query_scope(definition);
    let definition_range = definition.range();
    let mut locations = vec![];
    let mut matches = query_cursor.matches(&query, scope, content.as_bytes());
    while let Some(query_match) = matches.next() {
        for capture in query_match.captures() {
            let node = capture.node;
            let Some(resolved) = query_resolve(content, node) else {
                continue;
            };
            if resolved.range() == definition_range {
                locations.push((node.start_byte(), node.end_byte()));
            }
        }
    }
    locations
}

fn identifiers<'a>(node: Node<'a>, out: &mut Vec<Node<'a>>) {
    if node.kind() == "identifier" {
        out.push(node);
    }
    for i in 0..node.child_count() {
        identifiers(node.child(i as u32).unwrap(), out);
    }
}

fn index_of(tree: &SyntaxTree, node: Node<'_>) -> usize {
    (0..tree.node_count())
        .find(|&i| {
            let n = tree.get(i);
            n.kind == node.kind() && n.start_byte == node.start_byte() && n.end_byte == node.end_byte()
        })
        .expect("every tree-sitter node is in the arena")
}

fn range_of(tree: &SyntaxTree, i: usize) -> (usize, usize) {
    let n = tree.get(i);
    (n.start_byte, n.end_byte)
}

#[test]
fn arena_mirrors_tree_sitter_nodes() {
    let tree = tree_of(SAMPLE);
    let ts = ts_tree(SAMPLE);
    let mut count = 0;
    let mut cursor = ts.walk();
    let mut stack = vec![ts.root_node()];
    while let Some(node) = stack.pop() {
        let i = index_of(&tree, node);
        assert_eq!(tree.get(i).kind, node.kind());
        match node.parent() {
            Some(p) => assert_eq!(tree.get(i).parent.map(|q| range_of(&tree, q)), Some((p.start_byte(), p.end_byte()))),
            None => assert_eq!(tree.get(i).parent, None),
        }
        count += 1;
        for c in node.children(&mut cursor).collect::<Vec<_>>().into_iter().rev() {
            stack.push(c);
        }
    }
    assert_eq!(count, tree.node_count());
    assert_eq!(tree.get(0).kind, "translation_unit");
}

#[test]
fn definitions_agree_with_queries() {
    let tree = tree_of(SAMPLE);
    let ts = ts_tree(SAMPLE);
    let mut ids = vec![];
    identifiers(ts.root_node(), &mut ids);
    assert!(ids.len() > 20);
    for node in ids {
        let i = index_of(&tree, node);
        let expected = query_resolve(SAMPLE, node).map(|n| (n.start_byte(), n.end_byte()));
        let got = TreeParser::resolve_variable_definition(&tree, i).map(|j| range_of(&tree, j));
        assert_eq!(got, expected, "definition of identifier at {}", node.start_byte());
    }
}

#[test]
fn references_agree_with_queries() {
    let tree = tree_of(SAMPLE);
    let ts = ts_tree(SAMPLE);
    let mut ids = vec![];
    identifiers(ts.root_node(), &mut ids);
    for node in ids {
        let i = index_of(&tree, node);
        let expected = query_references(SAMPLE, node);
        let got: Vec<(usize, usize)> = TreeParser::find_variable_references(&tree, i)
            .into_iter()
            .map(|j| range_of(&tree, j))
            .collect();
        assert_eq!(got, expected, "references of identifier at {}", node.start_byte());
    }
}

fn offset_of(src: &str, needle: &str, nth: usize) -> usize {
    src.match_indices(needle).nth(nth).unwrap().0
}

fn texts(tree: &SyntaxTree, v: &[usize]) -> Vec<String> {
    v.iter().map(|&i| tree.node_text(i).to_string()).collect()
}

#[test]
fn shadowed_variable_resolves_to_inner_declaration() {
    let tree = tree_of(SAMPLE);
    // `x = z;` inside the inner block refers to the inner `z`
    let use_offset = offset_of(SAMPLE, "x = z;", 0) + 4;
    let cur = TreeParser::node_at(&tree, use_offset).unwrap();
    assert_eq!(tree.node_text(cur), "z");
    let def = TreeParser::resolve_variable_definition(&tree, cur).unwrap();
    assert_eq!(tree.get(def).start_byte, offset_of(SAMPLE, "float z = z + 1.0", 0) + 6);
    // `return z` comes after the inner block: the search in the function body
    // takes the last declaration of `z` before the use, the inner one
    let ret = offset_of(SAMPLE, "return z", 0) + 7;
    let cur = TreeParser::node_at(&tree, ret).unwrap();
    let def = TreeParser::resolve_variable_definition(&tree, cur).unwrap();
    assert_eq!(tree.get(def).start_byte, offset_of(SAMPLE, "float z = z + 1.0", 0) + 6);
}

#[test]
fn references_of_parameter() {
    let tree = tree_of(SAMPLE);
    let mapping = line_mapping(SAMPLE);
    // the parameter `x` of `helper`, at line 4
    let col = "float helper(float ".len() as u128;
    let refs = TreeParser::find_references(Position { line: 4, character: col }, &tree, &mapping).unwrap();
    let starts: Vec<usize> = refs.iter().map(|&i| tree.get(i).start_byte).collect();
    assert_eq!(
        starts,
        vec![
            offset_of(SAMPLE, "float x, float y", 0).max(offset_of(SAMPLE, "(float x", 0) + 7),
            offset_of(SAMPLE, "x * y", 0),
            offset_of(SAMPLE, "x = z;", 0),
        ]
    );
    assert_eq!(texts(&tree, &refs), vec!["x", "x", "x"]);
}

#[test]
fn references_of_function_are_its_calls() {
    let tree = tree_of(SAMPLE);
    let mapping = line_mapping(SAMPLE);
    let refs = TreeParser::find_references(Position { line: 4, character: 8 }, &tree, &mapping).unwrap();
    let starts: Vec<usize> = refs.iter().map(|&i| tree.get(i).start_byte).collect();
    assert_eq!(starts, vec![offset_of(SAMPLE, "helper(time", 0), offset_of(SAMPLE, "helper(a, SCALE", 0)]);
}

#[test]
fn references_of_variable_used_in_expression() {
    let tree = tree_of(SAMPLE);
    let off = offset_of(SAMPLE, "a = b + c", 0) + 4;
    let cur = TreeParser::node_at(&tree, off).unwrap();
    assert_eq!(tree.node_text(cur), "b");
    let refs = TreeParser::find_references_node(&tree, cur).unwrap();
    let starts: Vec<usize> = refs.iter().map(|&i| tree.get(i).start_byte).collect();
    assert_eq!(
        starts,
        vec![offset_of(SAMPLE, "b = a", 0), offset_of(SAMPLE, "= b;", 0) + 2, offset_of(SAMPLE, "b + c", 0)]
    );
}

#[test]
fn references_of_undeclared_name_are_none() {
    let tree = tree_of(SAMPLE);
    let off = offset_of(SAMPLE, "gl_FragColor", 0) + 1;
    let cur = TreeParser::node_at(&tree, off).unwrap();
    assert_eq!(tree.node_text(cur), "gl_FragColor");
    assert_eq!(TreeParser::find_references_node(&tree, cur), None);
}

#[test]
fn references_at_keyword_are_none() {
    let tree = tree_of(SAMPLE);
    let mapping = line_mapping(SAMPLE);
    assert_eq!(TreeParser::find_references(Position { line: 10, character: 2 }, &tree, &mapping), None);
}

#[test]
fn hover_on_function_call() {
    let tree = tree_of(SAMPLE);
    let off = offset_of(SAMPLE, "helper(time", 0) + 2;
    let cur = TreeParser::node_at(&tree, off).unwrap();
    let hover = TreeParser::hover_node(&tree, cur).unwrap();
    assert_eq!(hover.markdown, "**Function**\n```glsl\nhelper\n```");
    assert_eq!(hover.node, cur);
}

#[test]
fn hover_on_declared_variable() {
    let tree = tree_of(SAMPLE);
    let mapping = line_mapping(SAMPLE);
    let hover = TreeParser::hover(Position { line: 2, character: 15 }, &tree, &mapping).unwrap();
    assert_eq!(hover.markdown, "**Variable**\n```glsl\nuniform float time;\n```");
}

#[test]
fn hover_on_field_and_struct() {
    let tree = tree_of(SAMPLE);
    let off = offset_of(SAMPLE, "color;", 0) + 1;
    let cur = TreeParser::node_at(&tree, off).unwrap();
    let hover = TreeParser::hover_node(&tree, cur).unwrap();
    assert_eq!(hover.markdown, "**Field**\n```glsl\nvec3 color;\n```");
    let off = offset_of(SAMPLE, "Light {", 0) + 1;
    let cur = TreeParser::node_at(&tree, off).unwrap();
    let hover = TreeParser::hover_node(&tree, cur).unwrap();
    assert!(hover.markdown.starts_with("**Struct**\n```glsl\nstruct Light {"));
}

#[test]
fn hover_on_plain_identifier() {
    let tree = tree_of(SAMPLE);
    let off = offset_of(SAMPLE, "a = b + c", 0);
    let cur = TreeParser::node_at(&tree, off).unwrap();
    let hover = TreeParser::hover_node(&tree, cur).unwrap();
    assert_eq!(hover.markdown, "**Identifier**\n```glsl\na = b + c\n```");
}

#[test]
fn hover_outside_any_node_is_none() {
    let tree = tree_of(SAMPLE);
    let mapping = line_mapping(SAMPLE);
    assert!(TreeParser::hover(Position { line: 99, character: 0 }, &tree, &mapping).is_none());
    // a number literal gets no label
    let off = offset_of(SAMPLE, "1.0);", 0);
    let cur = TreeParser::node_at(&tree, off).unwrap();
    assert!(TreeParser::hover_node(&tree, cur).is_none());
}

#[test]
fn current_node_is_deepest() {
    let tree = tree_of(SAMPLE);
    let off = offset_of(SAMPLE, "time;", 0);
    let cur = TreeParser::node_at(&tree, off).unwrap();
    assert_eq!(tree.get(cur).kind, "identifier");
    assert_eq!(TreeParser::node_at(&tree, SAMPLE.len() + 5), None);
}

#[test]
fn reference_scope_is_nearest_block() {
    let tree = tree_of(SAMPLE);
    let off = offset_of(SAMPLE, "float z = z + 1.0", 0) + 6;
    let def = TreeParser::node_at(&tree, off).unwrap();
    let scope = TreeParser::variable_reference_scope(&tree, def);
    assert_eq!(tree.get(scope).kind, "compound_statement");
    assert!(tree.node_text(scope).starts_with("{\n        float z"));
    let root = tree.get(0);
    let top = TreeParser::variable_reference_scope(&tree, 0);
    assert_eq!(top, 0);
    assert_eq!(root.kind, "translation_unit");
}

#[test]
fn preprocessor_definition_resolves() {
    let tree = tree_of(SAMPLE);
    let off = offset_of(SAMPLE, "z + SCALE", 0) + 4;
    let cur = TreeParser::node_at(&tree, off).unwrap();
    let def = TreeParser::resolve_variable_definition(&tree, cur).unwrap();
    assert_eq!(tree.get(def).start_byte, offset_of(SAMPLE, "SCALE 2.0", 0));
}

#[test]
fn grouped_definition_query_matches_declarations() {
    let ts = ts_tree(SAMPLE);
    let query = Query::new(&tree_sitter_glsl::LANGUAGE_GLSL.into(), &grouped_def_pattern("z")).unwrap();
    let mut cursor = QueryCursor::new();
    let mut starts = vec![];
    let mut matches = cursor.matches(&query, ts.root_node(), SAMPLE.as_bytes());
    while let Some(m) = matches.next() {
        for c in m.captures() {
            starts.push(c.node.start_byte());
        }
    }
    assert_eq!(starts, vec![offset_of(SAMPLE, "z = x * y", 0), offset_of(SAMPLE, "z = z + 1.0", 0)]);
}

#[test]
fn function_query_agrees_with_calls() {
    let tree = tree_of(SAMPLE);
    let ts = ts_tree(SAMPLE);
    let query = Query::new(&tree_sitter_glsl::LANGUAGE_GLSL.into(), &function_ref_pattern("helper")).unwrap();
    let mut cursor = QueryCursor::new();
    let mut expected = vec![];
    let mut matches = cursor.matches(&query, ts.root_node(), SAMPLE.as_bytes());
    while let Some(m) = matches.next() {
        for c in m.captures() {
            expected.push((c.node.start_byte(), c.node.end_byte()));
        }
    }
    let got: Vec<(usize, usize)> =
        TreeParser::function_references(&tree, b"helper").into_iter().map(|j| range_of(&tree, j)).collect();
    assert_eq!(got, expected);
    assert_eq!(got.len(), 2);
}

#[test]
fn arena_fields_and_sibling_positions_match_tree_sitter() {
    let tree = tree_of(SAMPLE);
    let ts = ts_tree(SAMPLE);
    let mut stack = vec![ts.root_node()];
    let mut seen = 0;
    while let Some(node) = stack.pop() {
        for k in 0..node.child_count() {
            let child = node.child(k as u32).unwrap();
            let i = index_of(&tree, child);
            let n = tree.get(i);
            assert_eq!(n.sibling_index, k as usize);
            assert_eq!(n.field.as_deref(), node.field_name_for_child(k as u32));
            assert_eq!(n.subtree_end - i, child.descendant_count());
            stack.push(child);
            seen += 1;
        }
    }
    assert_eq!(seen + 1, tree.node_count());
}

#[test]
fn definition_of_called_function() {
    let tree = tree_of(SAMPLE);
    let off = offset_of(SAMPLE, "helper(time", 0) + 2;
    let cur = TreeParser::node_at(&tree, off).unwrap();
    let defs = TreeParser::find_definitions_node(&tree, cur).unwrap();
    let starts: Vec<usize> = defs.iter().map(|&i| tree.get(i).start_byte).collect();
    assert_eq!(starts, vec![offset_of(SAMPLE, "helper(float", 0)]);
}

#[test]
fn definition_of_variable_use() {
    let tree = tree_of(SAMPLE);
    let mapping = line_mapping(SAMPLE);
    // `a = b + c;` at line 15: `b` is declared in `float b = a, c = b;`
    let defs = TreeParser::find_definitions(Position { line: 15, character: 8 }, &tree, &mapping).unwrap();
    let starts: Vec<usize> = defs.iter().map(|&i| tree.get(i).start_byte).collect();
    assert_eq!(starts, vec![offset_of(SAMPLE, "b = a", 0)]);
    // an undeclared name has no definition
    let off = offset_of(SAMPLE, "gl_FragColor", 0) + 1;
    let cur = TreeParser::node_at(&tree, off).unwrap();
    assert!(TreeParser::find_definitions_node(&tree, cur).is_none());
    // a keyword is not a name
    let off = offset_of(SAMPLE, "return", 0) + 1;
    let cur = TreeParser::node_at(&tree, off).unwrap();
    assert!(TreeParser::find_definitions_node(&tree, cur).is_none());
}

/// The definition pattern as the library builds it, run as it stands: every
/// declaration of the name that the library finds is among the identifiers
/// that the pattern's declaration alternatives capture.
#[test]
fn definition_pattern_as_built_captures_the_declarations() {
    let tree = tree_of(SAMPLE);
    let ts = ts_tree(SAMPLE);
    let query = Query::new(&tree_sitter_glsl::LANGUAGE_GLSL.into(), &variable_def_pattern("z")).unwrap();
    let mut cursor = QueryCursor::new();
    let mut captured = vec![];
    let mut matches = cursor.matches(&query, ts.root_node(), SAMPLE.as_bytes());
    while let Some(m) = matches.next() {
        for c in m.captures() {
            captured.push((c.node.start_byte(), c.node.end_byte()));
        }
    }
    let mut declarations = vec![];
    for i in 0..tree.node_count() {
        if tree.get(i).kind == "identifier" && tree.node_text(i) == "z" {
            if let Some(d) = TreeParser::resolve_variable_definition(&tree, i) {
                declarations.push(range_of(&tree, d));
            }
        }
    }
    assert!(!declarations.is_empty());
    for d in declarations {
        assert!(captured.contains(&d), "declaration at {:?} is captured", d);
    }
}

#[test]
fn white_space_test_matches_std() {
    for u in 0u32..0x3100 {
        if let Some(c) = char::from_u32(u) {
            assert_eq!(vscode_mcshader::text::char_is_whitespace(c), c.is_whitespace(), "char {:#x}", u);
        }
    }
}
