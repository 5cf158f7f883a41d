use std::str::FromStr;
use vscode_mcshader::error::LanguageServerError;
use vscode_mcshader::logging::{drain_level, new_trace_id, parse_level, trace_id_from_bytes, LogLevel};
use vscode_mcshader::position::{line_mapping, offset_at, position_of, Position};
use vscode_mcshader::progress::{end_message, ProgressReporter};
use vscode_mcshader::server::{
    basic_extensions, handles_extension, lookup_command, merge_extensions, supports_utf16, workspace_roots, Command,
    ServerCore,
};
use vscode_mcshader::syntax::{Point, SyntaxNode, SyntaxTree};
use vscode_mcshader::text::{hex_padded, trim, u64_to_decimal};
use vscode_mcshader::tree_parser::hover::hover_label;
use vscode_mcshader::tree_parser::reference::{function_ref_pattern, variable_def_pattern, variable_ref_pattern};

#[test]
fn trim_matches_std() {
    for s in ["", "   ", "  a b  ", "\t\nfoo\r\n", "\u{3000}x\u{2028}", "\u{85}y\u{a0}", "no", " \u{200b}z"] {
        assert_eq!(trim(s), s.trim(), "trimming {:?}", s);
    }
}

#[test]
fn trim_twice_is_trim_once() {
    for s in ["  a  ", "\u{2003}b\u{2003}", "c"] {
        assert_eq!(trim(trim(s)), trim(s));
    }
}

#[test]
fn decimal_and_hex_formatting() {
    for n in [0u64, 7, 10, 99, 100, 12345, u64::MAX] {
        assert_eq!(u64_to_decimal(n), format!("{}", n));
    }
    for n in [0u32, 1, 0xabc, 0xffff, 0x10000, 0xdeadbeef, u32::MAX] {
        assert_eq!(hex_padded(n, 4), format!("{:04x}", n));
    }
    assert_eq!(hex_padded(0x2a, 8), "0000002a");
}

#[test]
fn trace_id_from_bytes_is_big_endian_hex() {
    assert_eq!(trace_id_from_bytes([0, 0, 0, 1]), "0001");
    assert_eq!(trace_id_from_bytes([0xde, 0xad, 0xbe, 0xef]), "deadbeef");
    assert_eq!(trace_id_from_bytes([0, 1, 0, 0]), "10000");
    for b in [[1u8, 2, 3, 4], [0, 0, 0x12, 0x34], [255, 0, 0, 0]] {
        assert_eq!(trace_id_from_bytes(b), format!("{:04x}", u32::from_be_bytes(b)));
    }
}

#[test]
fn new_trace_id_is_short_lowercase_hex() {
    for _ in 0..20 {
        let id = new_trace_id();
        assert!(id.len() >= 4 && id.len() <= 8, "{}", id);
        assert!(id.chars().all(|c| c.is_ascii_digit() || ('a'..='f').contains(&c)), "{}", id);
    }
}

fn slog_level(name: &str) -> Option<LogLevel> {
    match slog::Level::from_str(name) {
        Ok(slog::Level::Critical) => Some(LogLevel::Critical),
        Ok(slog::Level::Error) => Some(LogLevel::Error),
        Ok(slog::Level::Warning) => Some(LogLevel::Warning),
        Ok(slog::Level::Info) => Some(LogLevel::Info),
        Ok(slog::Level::Debug) => Some(LogLevel::Debug),
        Ok(slog::Level::Trace) => Some(LogLevel::Trace),
        Err(()) => None,
    }
}

#[test]
fn level_names_parse_as_slog_parses_them() {
    let names = [
        "", "off", "OFF", "critical", "crit", "CRITICAL", "error", "erro", "e", "warning", "warn", "W", "info",
        "i", "debug", "debg", "DEB", "trace", "trce", "t", "verbose", "errors", "o", "c", "debugging", "tr",
    ];
    for n in names {
        assert_eq!(parse_level(n), slog_level(n), "level name {:?}", n);
    }
    assert_eq!(parse_level("info"), Some(LogLevel::Info));
    assert_eq!(parse_level("Off"), None);
}

#[test]
fn drain_levels() {
    assert_eq!(drain_level(LogLevel::Critical), LogLevel::Error);
    assert_eq!(drain_level(LogLevel::Error), LogLevel::Error);
    assert_eq!(drain_level(LogLevel::Warning), LogLevel::Warning);
    assert_eq!(drain_level(LogLevel::Info), LogLevel::Info);
    assert_eq!(drain_level(LogLevel::Debug), LogLevel::Debug);
    assert_eq!(drain_level(LogLevel::Trace), LogLevel::Trace);
}

#[test]
fn progress_reporter_disabled_reports_nothing() {
    let mut reporter = ProgressReporter::new();
    assert!(!reporter.is_enabled());
    assert!(reporter.begin("Refreshing workspace", None).is_none());
    reporter.set_enabled(true);
    let first = reporter.begin("Refreshing workspace", Some("Re-indexing shader packs".to_owned())).unwrap();
    assert_eq!(first.token, "mcshader-0");
    assert_eq!(first.title, "Refreshing workspace");
    assert_eq!(first.message.as_deref(), Some("Re-indexing shader packs"));
    assert!(!first.cancellable);
}

#[test]
fn progress_tokens_count_up() {
    let mut reporter = ProgressReporter::new();
    reporter.set_enabled(true);
    let tokens: Vec<String> = (0..12).map(|_| reporter.begin("t", None).unwrap().token).collect();
    assert_eq!(tokens[0], "mcshader-0");
    assert_eq!(tokens[11], "mcshader-11");
    for i in 1..tokens.len() {
        assert_ne!(tokens[i - 1], tokens[i]);
    }
    reporter.set_enabled(false);
    assert!(reporter.begin("t", None).is_none());
    reporter.set_enabled(true);
    assert_eq!(reporter.begin("t", None).unwrap().token, "mcshader-12");
    assert_eq!(end_message(), "Done");
}

#[test]
fn error_codes_and_messages() {
    let e = LanguageServerError::not_shader_error();
    assert_eq!((e.code, e.message.as_str()), (-20002, "This is not a base shader file"));
    let e = LanguageServerError::invalid_command_error();
    assert_eq!((e.code, e.message.as_str()), (-20101, "Invalid command"));
    let e = LanguageServerError::invalid_argument_error();
    assert_eq!((e.code, e.message.as_str()), (-20102, "Invalid command argument"));
}

#[test]
fn commands_are_looked_up_by_name() {
    assert_eq!(lookup_command("virtualMerge").unwrap(), Command::VirtualMerge);
    let e = lookup_command("virtualmerge").unwrap_err();
    assert_eq!(e.code, -20101);
    assert!(lookup_command("").is_err());
}

#[test]
fn utf16_position_encoding_check() {
    assert!(supports_utf16(&None));
    assert!(supports_utf16(&Some(vec![])));
    assert!(supports_utf16(&Some(vec!["utf-8".to_owned(), "utf-16".to_owned()])));
    assert!(!supports_utf16(&Some(vec!["utf-8".to_owned(), "utf-32".to_owned()])));
}

#[test]
fn workspace_roots_prefer_folders() {
    let folders = vec!["/a".to_owned(), "/b".to_owned()];
    assert_eq!(workspace_roots(Some(folders.clone()), Some("/c".to_owned())), folders);
    assert_eq!(workspace_roots(None, Some("/c".to_owned())), vec!["/c".to_owned()]);
    assert!(workspace_roots(None, None).is_empty());
}

#[test]
fn extensions_merge_with_basic_ones() {
    let basic = basic_extensions();
    for ext in ["csh", "vsh", "gsh", "fsh", "tcs", "tes", "glsl"] {
        assert!(handles_extension(&basic, ext), "basic extension {}", ext);
    }
    for ext in ["inc", "txt", "", "GLSL", "vsh "] {
        assert!(!handles_extension(&basic, ext), "not a basic extension {:?}", ext);
    }
    let merged = merge_extensions(vec!["inc".to_owned(), "vsh".to_owned(), "inc".to_owned()]);
    for ext in ["inc", "csh", "vsh", "gsh", "fsh", "tcs", "tes", "glsl"] {
        assert!(handles_extension(&merged, ext), "merged extension {}", ext);
    }
    assert!(!handles_extension(&merged, "txt"));

    let mut core = ServerCore::new();
    assert!(!core.temp_lint());
    assert!(core.handles_extension("glsl") && !core.handles_extension("inc"));
    let level = core.did_change_configuration("debug", vec!["inc".to_owned()], true);
    assert_eq!(level, Some(LogLevel::Debug));
    assert!(core.temp_lint());
    assert!(core.handles_extension("inc") && core.handles_extension("fsh"));
    assert_eq!(core.did_change_configuration("loud", vec![], false), None);
    assert!(!core.handles_extension("inc") && core.handles_extension("tes"));
}

#[test]
fn query_patterns_hold_the_name() {
    assert_eq!(function_ref_pattern("main"), r#"((call_expression(identifier) @call)(#match? @call "^main$"))"#);
    assert_eq!(variable_ref_pattern("x"), r#"((identifier) @variable_ref (#match? @variable_ref "^x$"))"#);
    let def = variable_def_pattern("pos");
    assert!(def.starts_with("[\n        (init_declarator\n"));
    assert!(def.ends_with(r#"(#match? @variable "^pos$")]"#));
}

fn node(kind: &str, parent: Option<usize>, start: usize, end: usize, subtree_end: usize) -> SyntaxNode {
    SyntaxNode {
        kind: kind.to_owned(),
        field: None,
        parent,
        sibling_index: 0,
        start_byte: start,
        end_byte: end,
        start_point: Point { row: 0, column: start },
        end_point: Point { row: 0, column: end },
        subtree_end,
    }
}

#[test]
fn hand_built_trees_are_checked() {
    let ok = SyntaxTree::from_parts("ab".to_owned(), vec![node("root", None, 0, 2, 2), node("x", Some(0), 0, 1, 2)]);
    assert!(ok.is_some());
    assert!(SyntaxTree::from_parts("ab".to_owned(), vec![]).is_none());
    // a range past the end of the source
    assert!(SyntaxTree::from_parts("ab".to_owned(), vec![node("root", None, 0, 3, 1)]).is_none());
    // a parent after its child
    assert!(SyntaxTree::from_parts(
        "ab".to_owned(),
        vec![node("a", Some(1), 0, 1, 1), node("b", None, 0, 2, 2)]
    )
    .is_none());
    // a range that ends inside a character
    assert!(SyntaxTree::from_parts("é".to_owned(), vec![node("root", None, 0, 1, 1)]).is_none());
    // a second node without a parent
    assert!(SyntaxTree::from_parts("ab".to_owned(), vec![node("root", None, 0, 2, 1), node("x", None, 0, 1, 2)]).is_none());
    // a child whose bytes reach past its parent's
    assert!(SyntaxTree::from_parts(
        "ab".to_owned(),
        vec![node("root", None, 0, 1, 2), node("x", Some(0), 0, 2, 2)]
    )
    .is_none());
    // a child outside its parent's subtree
    assert!(SyntaxTree::from_parts(
        "ab".to_owned(),
        vec![node("root", None, 0, 2, 1), node("x", Some(0), 0, 1, 2)]
    )
    .is_none());
}

#[test]
fn hover_labels() {
    let n = |k: &str| node(k, None, 0, 0, 1);
    assert_eq!(hover_label(&n("identifier"), &n("call_expression")), Some("Function"));
    assert_eq!(hover_label(&n("argument_list"), &n("function_declarator")), Some("Function"));
    assert_eq!(hover_label(&n("identifier"), &n("preproc_def")), Some("Variable"));
    assert_eq!(hover_label(&n("field_identifier"), &n("field_expression")), Some("Field"));
    assert_eq!(hover_label(&n("type_identifier"), &n("struct_specifier")), Some("Struct"));
    assert_eq!(hover_label(&n("type_identifier"), &n("declaration")), None);
    assert_eq!(hover_label(&n("identifier"), &n("return_statement")), Some("Identifier"));
    assert_eq!(hover_label(&n("number_literal"), &n("argument_list")), None);
}

#[test]
fn positions_and_offsets() {
    let text = "ab\nc𝄞d\n\nxyz";
    let mapping = line_mapping(text);
    assert_eq!(mapping, vec![0, 3, 10, 11]);
    let at = |line: usize, character: u128| offset_at(text, &mapping, Position { line, character });
    assert_eq!(at(0, 0), Some(0));
    assert_eq!(at(0, 2), Some(2));
    assert_eq!(at(0, 9), Some(2));
    assert_eq!(at(1, 1), Some(4));
    // the musical symbol takes two UTF-16 units and four bytes
    assert_eq!(at(1, 3), Some(8));
    assert_eq!(at(1, 4), Some(9));
    assert_eq!(at(2, 0), Some(10));
    assert_eq!(at(3, 2), Some(13));
    assert_eq!(at(4, 0), None);
    assert_eq!(position_of(text, &mapping, 8), Position { line: 1, character: 3 });
    assert_eq!(position_of(text, &mapping, 3), Position { line: 1, character: 0 });
    assert_eq!(position_of(text, &mapping, 14), Position { line: 3, character: 3 });
    for offset in [0, 1, 2, 3, 4, 8, 9, 10, 11, 12, 13, 14] {
        let p = position_of(text, &mapping, offset);
        assert_eq!(at(p.line, p.character), Some(offset), "offset {}", offset);
    }
}
