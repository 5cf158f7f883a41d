# vscode-mcshader

A language server for Minecraft GLSL shader packs. The logic that decides
what the server answers lives in a library whose functions carry
requires/ensures contracts proved with Verus; a thin program around it speaks
the Language Server Protocol.

## Layout

- `src/` — the verified library:
  - `syntax.rs`: a parsed file as an arena of nodes in preorder, with its
    well-formedness;
  - `parse.rs`: tree-sitter parsing of GLSL into that arena;
  - `position.rs`: line starts, and editor positions (UTF-16 columns)
    against byte offsets;
  - `edit.rs`: the editor's changes applied to a file's text;
  - `tree_parser/`: the node under the cursor, hover text, go-to-definition,
    and the search for variable definitions and references;
  - `store.rs`, `workspace.rs`, `server.rs`: the open files, the shader
    packs of the workspace folders and their files, and the server's state
    and requests;
  - `logging.rs`, `progress.rs`, `error.rs`, `shader.rs`, `text.rs`: log
    levels and trace identifiers, progress tokens, error codes, shader
    compile reports, trimming and number formatting.
- `tests/` — tests of the library. They compare the parsed arena with
  tree-sitter's tree, check that the definition pattern as built captures
  the declarations the library finds, and compare the definition and
  reference searches with tree-sitter queries in which the name test is
  grouped to apply to every alternative of the pattern.
- `app/` — the server program: LSP transport, logging drains, the worker
  thread and the OpenGL context.
