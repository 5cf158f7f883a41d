use vscode_mcshader::logging::LogLevel;
use vscode_mcshader::position::Position;
use vscode_mcshader::server::{Command, ServerCore};
use vscode_mcshader::parse::GlslParser;
use vscode_mcshader::store::TempFile;
use vscode_mcshader::workspace::is_path_under;
use vscode_mcshader::edit::{apply_change, apply_changes, TextChange};

const SHADER: &str = "float f(float x) {\n    float y = x;\n    return y;\n}\nvoid main() { f(1.0); }\n";

fn whole(text: &str) -> Vec<TextChange> {
    vec![TextChange { range: None, text: text.to_owned() }]
}

fn at(line: usize, character: u128) -> Position {
    Position { line, character }
}

fn temp_file(content: &str) -> TempFile {
    let mut parser = GlslParser::new();
    TempFile::new(&mut parser, content.to_owned())
}

#[test]
fn temp_file_records_line_starts() {
    let f = temp_file("int a;\nint b;\n");
    assert_eq!(f.line_mapping, vec![0, 7, 14]);
    assert_eq!(f.tree.source(), "int a;\nint b;\n");
}

#[test]
fn server_starts_with_basic_settings() {
    let core = ServerCore::new();
    assert!(!core.temp_lint());
    assert!(core.file("/x.fsh").is_none());
}

#[test]
fn server_open_change_close() {
    let mut core = ServerCore::new();
    assert!(!core.change_file("/s.fsh", whole("int a;")));
    assert!(core.file("/s.fsh").is_none());
    core.open_file("/s.fsh".to_owned(), SHADER.to_owned());
    assert_eq!(core.file("/s.fsh").unwrap().tree.source(), SHADER);
    assert!(core.change_file("/s.fsh", whole("int a;")));
    assert_eq!(core.file("/s.fsh").unwrap().tree.source(), "int a;");
    assert!(core.close_file("/s.fsh", None));
    assert!(core.file("/s.fsh").is_none());
    assert!(!core.close_file("/s.fsh", None));
}

#[test]
fn server_configuration_keeps_open_files() {
    let mut core = ServerCore::new();
    core.open_file("/s.fsh".to_owned(), SHADER.to_owned());
    let level = core.did_change_configuration("trace", vec!["inc".to_owned()], true);
    assert_eq!(level, Some(LogLevel::Trace));
    assert_eq!(core.file("/s.fsh").unwrap().tree.source(), SHADER);
}

#[test]
fn server_keeps_files_apart() {
    let mut core = ServerCore::new();
    core.open_file("/a.fsh".to_owned(), "void main() {}".to_owned());
    core.open_file("/b.vsh".to_owned(), "int x;".to_owned());
    core.open_file("/a.fsh".to_owned(), "int y;".to_owned());
    assert_eq!(core.file("/a.fsh").unwrap().tree.source(), "int y;");
    assert_eq!(core.file("/b.vsh").unwrap().tree.source(), "int x;");
    assert!(core.close_file("/a.fsh", None));
    assert!(core.file("/a.fsh").is_none());
    assert_eq!(core.file("/b.vsh").unwrap().tree.source(), "int x;");
}

#[test]
fn server_commands() {
    let core = ServerCore::new();
    assert!(matches!(core.execute_command("virtualMerge"), Ok(Command::VirtualMerge)));
    let err = core.execute_command("format").unwrap_err();
    assert_eq!(err.code, -20101);
}

#[test]
fn server_hover_and_references_by_path() {
    let mut core = ServerCore::new();
    let at_y = Position { line: 2, character: 11 };
    assert!(core.hover("/s.fsh", at_y).is_none());
    assert!(core.references("/s.fsh", at_y).is_none());
    core.open_file("/s.fsh".to_owned(), SHADER.to_owned());

    let refs = core.references("/s.fsh", at_y).unwrap();
    let file = core.file("/s.fsh").unwrap();
    let texts: Vec<(usize, &str)> = refs
        .iter()
        .map(|&i| (file.tree.get(i).start_byte, file.tree.node_text(i)))
        .collect();
    assert_eq!(texts, vec![(29, "y"), (47, "y")]);

    let at_call = Position { line: 4, character: 14 };
    let hover = core.hover("/s.fsh", at_call).unwrap();
    assert_eq!(file.tree.node_text(hover.node), "f");
    assert_eq!(hover.markdown, "**Function**\n```glsl\nf\n```");
}

#[test]
fn server_initialize_lists_roots() {
    let core = ServerCore::new();
    let utf16 = Some(vec!["utf-16".to_owned()]);
    let roots = core.initialize(&utf16, Some(vec!["/w1".to_owned(), "/w2".to_owned()]), Some("/r".to_owned()));
    assert_eq!(roots, vec!["/w1".to_owned(), "/w2".to_owned()]);
    assert_eq!(core.initialize(&None, None, Some("/r".to_owned())), vec!["/r".to_owned()]);
    assert!(core.initialize(&Some(vec![]), None, None).is_empty());
    core.initialized();
    assert!(core.shutdown().is_ok());
}

#[test]
fn paths_under_a_folder() {
    assert!(is_path_under("/w/pack/shaders", "/w/pack", '/'));
    assert!(is_path_under("/w/pack", "/w/pack", '/'));
    assert!(is_path_under("/w/pack/a", "/w/", '/'));
    assert!(is_path_under("C:\\w\\pack", "C:\\w", '\\'));
    assert!(!is_path_under("/w/packs", "/w/pack", '/'));
    assert!(!is_path_under("/w", "/w/pack", '/'));
    assert!(!is_path_under("/v/pack", "/w", '/'));
}

#[test]
fn removing_a_workspace_folder_drops_its_packs_and_files() {
    let mut core = ServerCore::new();
    core.add_workspace_folder(
        vec!["/w1/packA".to_owned(), "/w2/packB".to_owned()],
        vec![
            ("/w1/packA/shaders/final.fsh".to_owned(), "/w1/packA".to_owned(), "void main() {}".to_owned()),
            ("/w1/packA/shaders/gbuffers_basic.vsh".to_owned(), "/w1/packA".to_owned(), "int a;".to_owned()),
            ("/w2/packB/shaders/final.fsh".to_owned(), "/w2/packB".to_owned(), "int b;".to_owned()),
        ],
    );
    core.open_file("/tmp/t.glsl".to_owned(), "int x;".to_owned());
    let mut gone = core.remove_workspace_folder("/w1", '/');
    gone.sort();
    assert_eq!(gone, vec!["/w1/packA/shaders/final.fsh".to_owned(), "/w1/packA/shaders/gbuffers_basic.vsh".to_owned()]);
    assert!(core.remove_workspace_folder("/w1", '/').is_empty());
    assert_eq!(core.remove_workspace_folder("/w2", '/'), vec!["/w2/packB/shaders/final.fsh".to_owned()]);
    assert!(core.file("/tmp/t.glsl").is_some());
}

#[test]
fn path_components_as_path_starts_with() {
    for (path, base) in [
        ("/a/b", "/a/b/"),
        ("/a/b/c", "/a/b/"),
        ("/a//b/./c", "/a/b"),
        ("/a/bc", "/a/b"),
        ("a/b", "/a"),
        ("./a/b", "./a"),
        ("/a/b", ""),
        ("/a\\b", "/a"),
        ("/", "/"),
    ] {
        assert_eq!(
            is_path_under(path, base, '/'),
            std::path::Path::new(path).starts_with(base),
            "{:?} under {:?}",
            path,
            base
        );
    }
}

#[test]
fn removing_a_folder_with_trailing_separator() {
    let mut core = ServerCore::new();
    core.add_workspace_folder(
        vec!["/a/b".to_owned()],
        vec![("/a/b/shaders/final.fsh".to_owned(), "/a/b".to_owned(), "int x;".to_owned())],
    );
    assert_eq!(core.remove_workspace_folder("/a/b/", '/'), vec!["/a/b/shaders/final.fsh".to_owned()]);
}

#[test]
fn workspace_files_take_edits_and_return_to_disc() {
    let mut core = ServerCore::new();
    core.add_workspace_folder(
        vec!["/w/pack".to_owned()],
        vec![("/w/pack/shaders/final.fsh".to_owned(), "/w/pack".to_owned(), "int a;".to_owned())],
    );
    let path = "/w/pack/shaders/final.fsh";
    assert!(core.is_workspace_file(path));
    assert_eq!(core.file(path).unwrap().tree.source(), "int a;");
    // opening a workspace file parses the editor's text into it; nothing is opened besides
    core.open_file(path.to_owned(), "int b;".to_owned());
    assert_eq!(core.file(path).unwrap().tree.source(), "int b;");
    assert!(core.change_file(path, whole("int c;")));
    assert_eq!(core.file(path).unwrap().tree.source(), "int c;");
    // closing it goes back to the text on disc
    assert!(core.close_file(path, Some("int a;".to_owned())));
    assert_eq!(core.file(path).unwrap().tree.source(), "int a;");
    assert!(core.close_file(path, None));
    assert!(core.is_workspace_file(path));
}

#[test]
fn every_text_can_be_opened() {
    let mut core = ServerCore::new();
    for text in ["", "\n\n", "#version 330\n", "}}}{{{", "float f( {", "é\u{1F600}"] {
        core.open_file("/t.glsl".to_owned(), text.to_owned());
        let file = core.file("/t.glsl").unwrap();
        assert_eq!(file.tree.source(), text);
        assert!(file.tree.node_count() >= 1);
    }
}

#[test]
fn changes_replace_ranges_in_utf16_columns() {
    let ch = |a: Position, b: Position, t: &str| TextChange { range: Some((a, b)), text: t.to_owned() };
    assert_eq!(apply_change("int a;\nint b;\n", &ch(at(1, 4), at(1, 5), "c")).unwrap(), "int a;\nint c;\n");
    // insertion at the end of the text
    assert_eq!(apply_change("x", &ch(at(0, 1), at(0, 1), "y")).unwrap(), "xy");
    // a surrogate pair counts two columns
    assert_eq!(apply_change("\u{1F600}a", &ch(at(0, 2), at(0, 3), "b")).unwrap(), "\u{1F600}b");
    // across lines
    assert_eq!(apply_change("ab\ncd", &ch(at(0, 1), at(1, 1), "")).unwrap(), "ad");
    // a range past the last line or ending before it starts does not fit
    assert!(apply_change("ab", &ch(at(3, 0), at(3, 0), "z")).is_none());
    assert!(apply_change("ab", &ch(at(0, 2), at(0, 1), "z")).is_none());
    // changes apply in order
    let changes = vec![ch(at(0, 0), at(0, 0), "a"), ch(at(0, 1), at(0, 1), "b"), TextChange { range: None, text: "c".to_owned() }];
    assert_eq!(apply_changes("", &changes).unwrap(), "c");
    let changes = vec![ch(at(0, 0), at(0, 0), "a"), ch(at(0, 1), at(0, 1), "b")];
    assert_eq!(apply_changes("", &changes).unwrap(), "ab");
}

#[test]
fn server_applies_edits_to_open_files() {
    let mut core = ServerCore::new();
    core.open_file("/e.glsl".to_owned(), "int a;\n".to_owned());
    let edit = vec![TextChange { range: Some((at(0, 4), at(0, 5))), text: "bc".to_owned() }];
    assert!(core.change_file("/e.glsl", edit));
    assert_eq!(core.file("/e.glsl").unwrap().tree.source(), "int bc;\n");
    let bad = vec![TextChange { range: Some((at(5, 0), at(5, 0))), text: "x".to_owned() }];
    assert!(!core.change_file("/e.glsl", bad));
    assert_eq!(core.file("/e.glsl").unwrap().tree.source(), "int bc;\n");
}
