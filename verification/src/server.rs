//! Decisions the server takes on initialization, configuration and commands.

use vstd::prelude::*;
use crate::error::{LanguageServerError, RpcError};
use crate::logging::{LogLevel, parse_level, parse_level_spec};
use crate::syntax::{as_ints, str_eq};
use crate::workspace::{ShaderPacks, WorkspaceFile, WorkspaceFiles, pack_paths, workspace_entries, packs_new, packs_insert, packs_remove, packs_list, wfiles_new, wfiles_get, wfiles_insert, wfiles_remove, wfiles_list, path_under, is_path_under};
use crate::store::{holds_parse, TempFile, TempFiles, open_files, files_new, files_get, files_insert, files_remove};
use crate::position::Position;
use crate::tree_parser::TreeParser;
use crate::tree_parser::hover::{HoverInfo, hover_spec};
use crate::tree_parser::reference::find_references_spec;
use crate::tree_parser::definition::definitions_spec;
use crate::tree_parser::current_node_spec;
use crate::edit::{TextChange, apply_changes, changes_spec};
use crate::parse::{GlslParser, facts_wf, glsl_nodes, mirrors};
use hashbrown::HashSet;
use vstd::string::StringSliceAdditionalSpecFns;

verus! {

/// The texts of a list of strings.
pub open spec fn texts(v: Seq<String>) -> Seq<Seq<char>> {
    v.map_values(|s: String| s@)
}

/// The file extensions of shader files that the server always handles.
pub open spec fn basic_extension_texts() -> Seq<Seq<char>> {
    seq!["csh"@, "vsh"@, "gsh"@, "fsh"@, "tcs"@, "tes"@, "glsl"@]
}

/// A set of file extensions, held in a `hashbrown::HashSet`, whose contents
/// `extension_set` names.
#[verifier::external_body]
pub struct Extensions {
    set: HashSet<String>,
}

/// What a set of file extensions holds.
pub uninterp spec fn extension_set(s: Extensions) -> Set<Seq<char>>;

/// `HashSet::new`: a set that holds nothing.
#[verifier::external_body]
fn extensions_new() -> (r: Extensions)
    ensures
        extension_set(r) == Set::<Seq<char>>::empty(),
{
    Extensions { set: HashSet::new() }
}

/// `HashSet::insert`: afterwards the set holds `ext` besides what it held;
/// true when it did not hold it before.
#[verifier::external_body]
fn extensions_insert(s: &mut Extensions, ext: String) -> (r: bool)
    ensures
        extension_set(*final(s)) == extension_set(*old(s)).insert(ext@),
        r == !extension_set(*old(s)).contains(ext@),
{
    s.set.insert(ext)
}

/// `HashSet::contains` with a `&str` value: whether the set holds a text
/// equal to `ext`.
#[verifier::external_body]
fn extensions_contains(s: &Extensions, ext: &str) -> (r: bool)
    ensures
        r == extension_set(*s).contains(ext@),
{
    s.set.contains(ext)
}

/// The file extensions of shader files that the server always handles.
pub fn basic_extensions() -> (r: Extensions)
    ensures
        extension_set(r) == basic_extension_texts().to_set(),
{
    let mut r = extensions_new();
    extensions_insert(&mut r, "csh".to_owned());
    extensions_insert(&mut r, "vsh".to_owned());
    extensions_insert(&mut r, "gsh".to_owned());
    extensions_insert(&mut r, "fsh".to_owned());
    extensions_insert(&mut r, "tcs".to_owned());
    extensions_insert(&mut r, "tes".to_owned());
    extensions_insert(&mut r, "glsl".to_owned());
    assert(extension_set(r) =~= basic_extension_texts().to_set()) by {
        let b = basic_extension_texts();
        assert forall|x: Seq<char>| b.contains(x) implies extension_set(r).contains(x) by {
            let i = choose|i: int| 0 <= i < b.len() && b[i] == x;
        }
        assert(b[0] == "csh"@ && b[1] == "vsh"@ && b[2] == "gsh"@ && b[3] == "fsh"@);
        assert(b[4] == "tcs"@ && b[5] == "tes"@ && b[6] == "glsl"@);
    }
    r
}

/// Whether a list of strings holds a given text.
pub fn contains_text(v: &Vec<String>, s: &str) -> (r: bool)
    ensures
        r == texts(v@).contains(s@),
{
    let mut i: usize = 0;
    while i < v.len()
        invariant
            i <= v@.len(),
            forall|k: int| 0 <= k < i ==> v@[k]@ != s@,
        decreases v@.len() - i,
    {
        if str_eq(v[i].as_str(), s) {
            assert(texts(v@)[i as int] == s@);
            return true;
        }
        i = i + 1;
    }
    assert forall|k: int| 0 <= k < texts(v@).len() implies texts(v@)[k] != s@ by {
        assert(texts(v@)[k] == v@[k]@);
    }
    false
}

/// The extensions after a configuration change: the configured extra ones
/// and the basic ones.
pub open spec fn merged_extensions(extra: Seq<Seq<char>>) -> Set<Seq<char>> {
    extra.to_set().union(basic_extension_texts().to_set())
}

/// The configured extra extensions together with the basic ones, as the
/// server sets them on a configuration change.
pub fn merge_extensions(extra: Vec<String>) -> (r: Extensions)
    ensures
        extension_set(r) == merged_extensions(texts(extra@)),
{
    let mut r = basic_extensions();
    let mut i: usize = 0;
    while i < extra.len()
        invariant
            i <= extra@.len(),
            extension_set(r) == texts(extra@).subrange(0, i as int).to_set().union(
                basic_extension_texts().to_set(),
            ),
        decreases extra@.len() - i,
    {
        extensions_insert(&mut r, extra[i].clone());
        assert(texts(extra@).subrange(0, i + 1) =~= texts(extra@).subrange(0, i as int).push(
            extra@[i as int]@,
        ));
        proof {
            texts(extra@).subrange(0, i as int).lemma_push_to_set_commute(extra@[i as int]@);
        }
        assert(extension_set(r) =~= texts(extra@).subrange(0, i + 1).to_set().union(
            basic_extension_texts().to_set(),
        ));
        i = i + 1;
    }
    assert(texts(extra@).subrange(0, extra@.len() as int) =~= texts(extra@));
    r
}

/// Whether files with extension `ext` are shader files under `extensions`.
pub fn handles_extension(extensions: &Extensions, ext: &str) -> (r: bool)
    ensures
        r == extension_set(*extensions).contains(ext@),
{
    extensions_contains(extensions, ext)
}

/// The commands that the server executes.
#[derive(Clone, Copy, PartialEq, Eq, Structural, Debug)]
pub enum Command {
    /// Merges a base shader file with the files it includes.
    VirtualMerge,
}

/// Finds the command named `name`; the invalid-command error when there is none.
pub fn lookup_command(name: &str) -> (r: Result<Command, RpcError>)
    ensures
        name@ == "virtualMerge"@ ==> r == Ok::<Command, RpcError>(Command::VirtualMerge),
        name@ != "virtualMerge"@ ==> (r matches Err(e) && e.code == -20101 && e.message@
            == "Invalid command"@),
{
    if str_eq(name, "virtualMerge") {
        Ok(Command::VirtualMerge)
    } else {
        Err(LanguageServerError::invalid_command_error())
    }
}

/// Whether a client that names these position encodings accepts positions
/// in UTF-16 code units: it names none, an empty list of them, or a list
/// holding `utf-16`.
pub open spec fn accepts_utf16(encodings: Option<Vec<String>>) -> bool {
    match encodings {
        None => true,
        Some(v) => v@.len() == 0 || texts(v@).contains("utf-16"@),
    }
}

/// Whether the client accepts positions in UTF-16 code units.
pub fn supports_utf16(encodings: &Option<Vec<String>>) -> (r: bool)
    ensures
        r == accepts_utf16(*encodings),
{
    match encodings {
        None => true,
        Some(v) => v.len() == 0 || contains_text(v, "utf-16"),
    }
}

/// The workspace roots to scan at start-up: the workspace folders when the
/// client names them, else the root when it names one, else none.
pub open spec fn roots_spec(folders: Option<Vec<String>>, root: Option<String>) -> Seq<String> {
    match folders {
        Some(f) => f@,
        None => match root {
            Some(x) => seq![x],
            None => Seq::empty(),
        },
    }
}

/// The workspace roots to scan at start-up.
pub fn workspace_roots(folders: Option<Vec<String>>, root: Option<String>) -> (r: Vec<String>)
    ensures
        r@ == roots_spec(folders, root),
{
    match folders {
        Some(f) => f,
        None => match root {
            Some(x) => {
                let mut r = Vec::new();
                r.push(x);
                assert(r@ =~= seq![x]);
                r
            },
            None => {
                let r = Vec::new();
                assert(r@ =~= Seq::<String>::empty());
                r
            },
        },
    }
}

/// Whether the workspace file `k` lies in a pack under the folder
/// `removed`.
pub open spec fn file_under(m: Map<Seq<char>, WorkspaceFile>, removed: Seq<char>, sep: char) -> spec_fn(Seq<char>) -> bool {
    |k: Seq<char>| m.contains_key(k) && path_under(m[k].pack@, removed, sep)
}

/// The paths of the listed workspace files, among the first `j`, whose
/// pack lies under the folder `removed`, in list order.
pub open spec fn removed_files(entries: Seq<(String, String)>, removed: Seq<char>, sep: char, j: int) -> Seq<Seq<char>>
    decreases j,
{
    if j <= 0 {
        Seq::empty()
    } else {
        let prev = removed_files(entries, removed, sep, j - 1);
        if path_under(entries[j - 1].1@, removed, sep) {
            prev.push(entries[j - 1].0@)
        } else {
            prev
        }
    }
}

proof fn lemma_removed_files(entries: Seq<(String, String)>, removed: Seq<char>, sep: char, j: int)
    requires
        0 <= j <= entries.len(),
        forall|a: int, b: int| 0 <= a < b < entries.len() ==> entries[a].0@ != entries[b].0@,
    ensures
        forall|k: Seq<char>| #[trigger] removed_files(entries, removed, sep, j).contains(k) <==> exists|i: int|
            0 <= i < j && entries[i].0@ == k && path_under(entries[i].1@, removed, sep),
        removed_files(entries, removed, sep, j).no_duplicates(),
    decreases j,
{
    if j > 0 {
        lemma_removed_files(entries, removed, sep, j - 1);
        let prev = removed_files(entries, removed, sep, j - 1);
        let cur = removed_files(entries, removed, sep, j);
        assert forall|k: Seq<char>| #[trigger] cur.contains(k) <==> exists|i: int|
            0 <= i < j && entries[i].0@ == k && path_under(entries[i].1@, removed, sep) by {
            if cur.contains(k) {
                let x = choose|x: int| 0 <= x < cur.len() && cur[x] == k;
                if x < prev.len() {
                    assert(prev[x] == k);
                    assert(prev.contains(k));
                }
            }
            if exists|i: int| 0 <= i < j && entries[i].0@ == k && path_under(entries[i].1@, removed, sep) {
                let i = choose|i: int| 0 <= i < j && entries[i].0@ == k && path_under(entries[i].1@, removed, sep);
                if i < j - 1 {
                    assert(prev.contains(k));
                    let x = choose|x: int| 0 <= x < prev.len() && prev[x] == k;
                    assert(cur[x] == k);
                } else {
                    assert(cur[cur.len() - 1] == k);
                }
            }
        }
        if path_under(entries[j - 1].1@, removed, sep) {
            assert(!prev.contains(entries[j - 1].0@));
            assert forall|a: int, b: int| 0 <= a < b < cur.len() implies cur[a] != cur[b] by {
                if b == cur.len() - 1 {
                    assert(cur[a] == prev[a]);
                    assert(prev.contains(prev[a]));
                } else {
                    assert(cur[a] == prev[a] && cur[b] == prev[b]);
                }
            }
        }
    }
}

/// The listed pack folders, among the first `i`, that lie under the
/// folder `removed`.
pub open spec fn removed_packs(list: Seq<String>, removed: Seq<char>, sep: char, i: int) -> Set<Seq<char>>
    decreases i,
{
    if i <= 0 {
        Set::empty()
    } else {
        let prev = removed_packs(list, removed, sep, i - 1);
        if path_under(list[i - 1]@, removed, sep) {
            prev.insert(list[i - 1]@)
        } else {
            prev
        }
    }
}

proof fn lemma_removed_packs(list: Seq<String>, removed: Seq<char>, sep: char, i: int)
    requires
        0 <= i <= list.len(),
    ensures
        forall|p: Seq<char>| #[trigger] removed_packs(list, removed, sep, i).contains(p) <==> exists|a: int|
            0 <= a < i && list[a]@ == p && path_under(p, removed, sep),
    decreases i,
{
    if i > 0 {
        lemma_removed_packs(list, removed, sep, i - 1);
        assert forall|p: Seq<char>| #[trigger] removed_packs(list, removed, sep, i).contains(p) <==> exists|a: int|
            0 <= a < i && list[a]@ == p && path_under(p, removed, sep) by {
            if removed_packs(list, removed, sep, i).contains(p) {
                if removed_packs(list, removed, sep, i - 1).contains(p) {
                    let a = choose|a: int| 0 <= a < i - 1 && list[a]@ == p && path_under(p, removed, sep);
                    assert(0 <= a < i && list[a]@ == p && path_under(p, removed, sep));
                } else {
                    assert(list[i - 1]@ == p && path_under(p, removed, sep));
                }
            }
            if exists|a: int| 0 <= a < i && list[a]@ == p && path_under(p, removed, sep) {
                let a = choose|a: int| 0 <= a < i && list[a]@ == p && path_under(p, removed, sep);
                if a < i - 1 {
                    assert(removed_packs(list, removed, sep, i - 1).contains(p));
                }
            }
        }
    }
}

/// Everything the server changes as it runs: its settings, the files it
/// holds open and the parser it reads them with.
pub struct ServerData {
    /// Whether files outside any shader pack are linted.
    pub temp_lint: bool,
    /// The file extensions of shader files.
    pub extensions: Extensions,
    /// The shader packs of the workspace folders.
    pub shader_packs: ShaderPacks,
    /// The shader files in those packs, each with its pack's folder.
    pub workspace_files: WorkspaceFiles,
    /// The open files, by path.
    pub temp_files: TempFiles,
    pub tree_sitter_parser: GlslParser,
}

impl ServerData {
    /// Every open file and every workspace file is well formed, and every
    /// workspace file belongs to a known shader pack.
    pub open spec fn wf(&self) -> bool {
        &&& forall|k: Seq<char>| #[trigger] open_files(self.temp_files).contains_key(k) ==> open_files(
            self.temp_files,
        )[k].wf()
        &&& forall|k: Seq<char>| #[trigger] workspace_entries(self.workspace_files).contains_key(k) ==> {
            &&& workspace_entries(self.workspace_files)[k].file.wf()
            &&& pack_paths(self.shader_packs).contains(workspace_entries(self.workspace_files)[k].pack@)
        }
    }

    /// The state at start-up: no file open, no linting of files outside
    /// shader packs, and the basic extensions.
    pub fn new() -> (r: ServerData)
        ensures
            r.wf(),
            open_files(r.temp_files) == Map::<Seq<char>, TempFile>::empty(),
            pack_paths(r.shader_packs) == Set::<Seq<char>>::empty(),
            workspace_entries(r.workspace_files).dom() == Set::<Seq<char>>::empty(),
            !r.temp_lint,
            extension_set(r.extensions) == basic_extension_texts().to_set(),
    {
        ServerData {
            temp_lint: false,
            extensions: basic_extensions(),
            shader_packs: packs_new(),
            workspace_files: wfiles_new(),
            temp_files: files_new(),
            tree_sitter_parser: GlslParser::new(),
        }
    }
}

/// The server's state and the requests that read and change it.
pub struct ServerCore {
    server_data: ServerData,
}

impl ServerCore {
    /// The open files, by path.
    pub closed spec fn files(&self) -> Map<Seq<char>, TempFile> {
        open_files(self.server_data.temp_files)
    }

    /// The state's invariant.
    pub closed spec fn wf(&self) -> bool {
        self.server_data.wf()
    }

    /// Whether files outside any shader pack are linted.
    pub closed spec fn temp_lint_spec(&self) -> bool {
        self.server_data.temp_lint
    }

    /// The file extensions of shader files.
    pub closed spec fn extensions_spec(&self) -> Set<Seq<char>> {
        extension_set(self.server_data.extensions)
    }

    /// The folders of the shader packs.
    pub closed spec fn packs(&self) -> Set<Seq<char>> {
        pack_paths(self.server_data.shader_packs)
    }

    /// The workspace files by path.
    pub closed spec fn workspace_files(&self) -> Map<Seq<char>, WorkspaceFile> {
        workspace_entries(self.server_data.workspace_files)
    }

    /// The shader files that requests read, by path: the workspace files,
    /// and the open files outside the workspace.
    pub open spec fn shader_files(&self) -> Map<Seq<char>, TempFile> {
        Map::new(
            |k: Seq<char>| self.workspace_files().contains_key(k) || self.files().contains_key(k),
            |k: Seq<char>|
                if self.workspace_files().contains_key(k) {
                    self.workspace_files()[k].file
                } else {
                    self.files()[k]
                },
        )
    }

    /// A server with no file open and the start-up settings.
    pub fn new() -> (r: ServerCore)
        ensures
            r.wf(),
            r.files() == Map::<Seq<char>, TempFile>::empty(),
            !r.temp_lint_spec(),
            r.extensions_spec() == basic_extension_texts().to_set(),
            r.packs() == Set::<Seq<char>>::empty(),
            r.workspace_files().dom() == Set::<Seq<char>>::empty(),
    {
        ServerCore { server_data: ServerData::new() }
    }

    /// Starts serving a client that accepts positions in UTF-16 code units,
    /// whose position encodings are `encodings`; the workspace roots to scan
    /// are the folders it names, else its root, else none.
    pub fn initialize(
        &self,
        encodings: &Option<Vec<String>>,
        folders: Option<Vec<String>>,
        root: Option<String>,
    ) -> (r: Vec<String>)
        requires
            accepts_utf16(*encodings),
        ensures
            r@ == roots_spec(folders, root),
    {
        workspace_roots(folders, root)
    }

    /// The client is ready; nothing is to be done.
    pub fn initialized(&self) {
    }

    /// Shuts the server down; it always succeeds.
    pub fn shutdown(&self) -> (r: Result<(), RpcError>)
        ensures
            r is Ok,
    {
        Ok(())
    }

    /// Whether files outside any shader pack are linted.
    pub fn temp_lint(&self) -> (r: bool)
        ensures
            r == self.temp_lint_spec(),
    {
        self.server_data.temp_lint
    }

    /// Whether files with extension `ext` are shader files.
    pub fn handles_extension(&self, ext: &str) -> (r: bool)
        ensures
            r == self.extensions_spec().contains(ext@),
    {
        handles_extension(&self.server_data.extensions, ext)
    }

    /// Applies a configuration change: the extensions become the configured
    /// extra ones together with the basic ones, and `temp_lint` is taken as
    /// given. Returns the log level that the configured name selects, or
    /// `None` when it names none.
    pub fn did_change_configuration(
        &mut self,
        log_level: &str,
        extra_extensions: Vec<String>,
        temp_lint: bool,
    ) -> (r: Option<LogLevel>)
        requires
            old(self).wf(),
        ensures
            final(self).wf(),
            final(self).files() == old(self).files(),
            final(self).packs() == old(self).packs(),
            final(self).workspace_files() == old(self).workspace_files(),
            r == parse_level_spec(log_level.spec_bytes()),
            final(self).temp_lint_spec() == temp_lint,
            final(self).extensions_spec() == merged_extensions(texts(extra_extensions@)),
    {
        let level = parse_level(log_level);
        self.server_data.extensions = merge_extensions(extra_extensions);
        self.server_data.temp_lint = temp_lint;
        level
    }

    /// Adds a workspace folder: `packs` are the folders of the shader packs
    /// found in it, and `files` the shader files found in them, each as its
    /// path, its pack's folder and its text, which is parsed. The open files
    /// and the settings stay as they were.
    pub fn add_workspace_folder(&mut self, packs: Vec<String>, files: Vec<(String, String, String)>)
        requires
            old(self).wf(),
            forall|i: int| 0 <= i < files@.len() ==> texts(packs@).contains(#[trigger] files@[i].1@),
            forall|i: int, j: int| 0 <= i < j < files@.len() ==> files@[i].0@ != files@[j].0@,
        ensures
            final(self).wf(),
            final(self).packs() == old(self).packs().union(texts(packs@).to_set()),
            forall|k: Seq<char>| #[trigger] final(self).workspace_files().contains_key(k) <==> (old(
                self,
            ).workspace_files().contains_key(k) || exists|i: int| 0 <= i < files@.len() && files@[i].0@ == k),
            forall|i: int|
                0 <= i < files@.len() ==> #[trigger] final(self).workspace_files()[files@[i].0@].pack@
                    == files@[i].1@ && holds_parse(final(self).workspace_files()[files@[i].0@].file, files@[i].2@),
            forall|k: Seq<char>|
                #[trigger] old(self).workspace_files().contains_key(k) && (forall|i: int|
                    0 <= i < files@.len() ==> files@[i].0@ != k) ==> final(self).workspace_files()[k] == old(
                    self,
                ).workspace_files()[k],
            final(self).files() == old(self).files(),
            final(self).temp_lint_spec() == old(self).temp_lint_spec(),
            final(self).extensions_spec() == old(self).extensions_spec(),
    {
        let ghost old_packs = self.packs();
        let ghost old_ws = self.workspace_files();
        let mut i: usize = 0;
        while i < packs.len()
            invariant
                i <= packs@.len(),
                self.wf(),
                self.packs() == old_packs.union(texts(packs@).subrange(0, i as int).to_set()),
                self.workspace_files() == old_ws,
                self.files() == old(self).files(),
                self.temp_lint_spec() == old(self).temp_lint_spec(),
                self.extensions_spec() == old(self).extensions_spec(),
            decreases packs@.len() - i,
        {
            packs_insert(&mut self.server_data.shader_packs, packs[i].clone());
            proof {
                let pre = texts(packs@).subrange(0, i as int);
                assert(texts(packs@).subrange(0, i + 1) =~= pre.push(packs@[i as int]@));
                pre.lemma_push_to_set_commute(packs@[i as int]@);
            }
            assert(self.packs() =~= old_packs.union(texts(packs@).subrange(0, i + 1).to_set()));
            i = i + 1;
        }
        assert(texts(packs@).subrange(0, packs@.len() as int) =~= texts(packs@));
        let mut j: usize = 0;
        while j < files.len()
            invariant
                j <= files@.len(),
                self.wf(),
                forall|k: int| 0 <= k < files@.len() ==> texts(packs@).contains(#[trigger] files@[k].1@),
                forall|a: int, b: int| 0 <= a < b < files@.len() ==> files@[a].0@ != files@[b].0@,
                self.packs() == old_packs.union(texts(packs@).to_set()),
                forall|k: Seq<char>| #[trigger] self.workspace_files().contains_key(k) <==> (old_ws.contains_key(k)
                    || exists|a: int| 0 <= a < j && files@[a].0@ == k),
                forall|a: int|
                    0 <= a < j ==> #[trigger] self.workspace_files()[files@[a].0@].pack@ == files@[a].1@
                        && holds_parse(self.workspace_files()[files@[a].0@].file, files@[a].2@),
                forall|k: Seq<char>|
                    #[trigger] old_ws.contains_key(k) && (forall|a: int| 0 <= a < j ==> files@[a].0@ != k)
                        ==> self.workspace_files()[k] == old_ws[k],
                self.files() == old(self).files(),
                self.temp_lint_spec() == old(self).temp_lint_spec(),
                self.extensions_spec() == old(self).extensions_spec(),
            decreases files@.len() - j,
        {
            let entry = &files[j];
            let ghost head = self.workspace_files();
            assert(forall|k: Seq<char>| #[trigger] head.contains_key(k) <==> (old_ws.contains_key(k)
                || exists|a: int| 0 <= a < j && files@[a].0@ == k));
            let file = TempFile::new(&mut self.server_data.tree_sitter_parser, entry.2.clone());
            let ghost newf = file;
            let pack = entry.1.clone();
            let ghost newp = pack;
            assert(texts(packs@).contains(entry.1@));
            assert(texts(packs@).to_set().contains(entry.1@));
            let ghost before = self.workspace_files();
            assert(before == head);
            wfiles_insert(
                &mut self.server_data.workspace_files,
                entry.0.clone(),
                WorkspaceFile { pack, file },
            );
            proof {
                assert(self.workspace_files()[files@[j as int].0@] == (WorkspaceFile { pack: newp, file: newf }));
                assert(holds_parse(newf, files@[j as int].2@));
                assert forall|k: Seq<char>| #[trigger] self.workspace_files().contains_key(k) <==> (
                    old_ws.contains_key(k) || exists|a: int| 0 <= a < j + 1 && files@[a].0@ == k) by {
                    if exists|a: int| 0 <= a < j + 1 && files@[a].0@ == k {
                        let a = choose|a: int| 0 <= a < j + 1 && files@[a].0@ == k;
                        if a < j {
                            assert(0 <= a < j && files@[a].0@ == k);
                            assert(before.contains_key(k));
                        }
                    }
                    if before.contains_key(k) && !old_ws.contains_key(k) {
                        let a = choose|a: int| 0 <= a < j && files@[a].0@ == k;
                        assert(0 <= a < j + 1 && files@[a].0@ == k);
                    }
                }
                assert forall|a: int| 0 <= a < j + 1 implies #[trigger] self.workspace_files()[files@[a].0@].pack@
                    == files@[a].1@ && holds_parse(self.workspace_files()[files@[a].0@].file, files@[a].2@) by {
                    if a < j {
                        assert(files@[a].0@ != files@[j as int].0@);
                        assert(head[files@[a].0@].pack@ == files@[a].1@);
                        assert(holds_parse(head[files@[a].0@].file, files@[a].2@));
                        assert(self.workspace_files()[files@[a].0@] == before[files@[a].0@]);
                    }
                }
                assert forall|k: Seq<char>|
                    #[trigger] old_ws.contains_key(k) && (forall|a: int| 0 <= a < j + 1 ==> files@[a].0@ != k)
                        implies self.workspace_files()[k] == old_ws[k] by {
                    assert(forall|a: int| 0 <= a < j ==> files@[a].0@ != k);
                    assert(before[k] == old_ws[k]);
                }
            }
            j = j + 1;
        }
    }

    /// Removes a workspace folder, whose components are separated by `/` or
    /// the platform's separator `sep`: the shader packs under it go, and
    /// with them their files, whose paths are returned, each once. The open
    /// files and the settings stay as they were.
    pub fn remove_workspace_folder(&mut self, removed: &str, sep: char) -> (r: Vec<String>)
        requires
            old(self).wf(),
        ensures
            final(self).wf(),
            final(self).packs() == old(self).packs().filter(|p: Seq<char>| !path_under(p, removed@, sep)),
            final(self).workspace_files() == old(self).workspace_files().remove_keys(
                old(self).workspace_files().dom().filter(file_under(old(self).workspace_files(), removed@, sep)),
            ),
            texts(r@).to_set() == old(self).workspace_files().dom().filter(
                file_under(old(self).workspace_files(), removed@, sep),
            ),
            texts(r@).no_duplicates(),
            final(self).files() == old(self).files(),
            final(self).temp_lint_spec() == old(self).temp_lint_spec(),
            final(self).extensions_spec() == old(self).extensions_spec(),
    {
        let ghost old_packs = self.packs();
        let ghost old_files = self.workspace_files();
        let ghost gone = old_files.dom().filter(file_under(old_files, removed@, sep));
        // the files go first
        let entries = wfiles_list(&self.server_data.workspace_files);
        let mut r: Vec<String> = Vec::new();
        let mut j: usize = 0;
        assert(texts(r@) =~= removed_files(entries@, removed@, sep, 0));
        while j < entries.len()
            invariant
                j <= entries@.len(),
                self.packs() == old_packs,
                texts(r@) == removed_files(entries@, removed@, sep, j as int),
                self.workspace_files() == old_files.remove_keys(texts(r@).to_set()),
                self.files() == old(self).files(),
                self.temp_lint_spec() == old(self).temp_lint_spec(),
                self.extensions_spec() == old(self).extensions_spec(),
            decreases entries@.len() - j,
        {
            let entry = &entries[j];
            if is_path_under(entry.1.as_str(), removed, sep) {
                wfiles_remove(&mut self.server_data.workspace_files, entry.0.as_str());
                let ghost before = texts(r@);
                r.push(entry.0.clone());
                proof {
                    assert(texts(r@) =~= before.push(entry.0@));
                    before.lemma_push_to_set_commute(entry.0@);
                }
                assert(self.workspace_files() =~= old_files.remove_keys(texts(r@).to_set()));
            }
            j = j + 1;
        }
        proof {
            lemma_removed_files(entries@, removed@, sep, entries@.len() as int);
            assert forall|k: Seq<char>| #[trigger] texts(r@).to_set().contains(k) == gone.contains(k) by {
                if gone.contains(k) {
                    let i = choose|i: int| 0 <= i < entries@.len() && entries@[i].0@ == k;
                    assert(entries@[i].0@ == k && old_files[k].pack@ == entries@[i].1@);
                }
                if texts(r@).contains(k) {
                    let i = choose|i: int|
                        0 <= i < entries@.len() && entries@[i].0@ == k && path_under(entries@[i].1@, removed@, sep);
                    assert(old_files.contains_key(entries@[i].0@));
                }
            }
            assert(texts(r@).to_set() =~= gone);
        }
        // then the packs under the folder
        let list = packs_list(&self.server_data.shader_packs);
        let mut i: usize = 0;
        assert(old_packs.difference(removed_packs(list@, removed@, sep, 0)) =~= old_packs);
        while i < list.len()
            invariant
                i <= list@.len(),
                self.packs() == old_packs.difference(removed_packs(list@, removed@, sep, i as int)),
                self.workspace_files() == old_files.remove_keys(gone),
                self.files() == old(self).files(),
                self.temp_lint_spec() == old(self).temp_lint_spec(),
                self.extensions_spec() == old(self).extensions_spec(),
            decreases list@.len() - i,
        {
            if is_path_under(list[i].as_str(), removed, sep) {
                packs_remove(&mut self.server_data.shader_packs, list[i].as_str());
            }
            assert(self.packs() =~= old_packs.difference(removed_packs(list@, removed@, sep, i + 1)));
            i = i + 1;
        }
        proof {
            lemma_removed_packs(list@, removed@, sep, list@.len() as int);
            let under = |p: Seq<char>| !path_under(p, removed@, sep);
            assert forall|p: Seq<char>| #[trigger] self.packs().contains(p) == old_packs.filter(under).contains(p) by {
                if old_packs.contains(p) && path_under(p, removed@, sep) {
                    let a = choose|a: int| 0 <= a < list@.len() && list@[a]@ == p;
                    assert(removed_packs(list@, removed@, sep, list@.len() as int).contains(p));
                }
            }
            assert(self.packs() =~= old_packs.filter(under));
            assert forall|k: Seq<char>| #[trigger] self.workspace_files().contains_key(k) implies self.packs().contains(
                self.workspace_files()[k].pack@,
            ) by {
                assert(!gone.contains(k));
                assert(old_files.contains_key(k));
                if path_under(old_files[k].pack@, removed@, sep) {
                    assert(file_under(old_files, removed@, sep)(k));
                }
                assert(old_packs.contains(old_files[k].pack@));
                assert(old_packs.filter(under).contains(old_files[k].pack@));
            }
        }
        r
    }

    /// Finds the command named `name`, as `lookup_command` does.
    pub fn execute_command(&self, name: &str) -> (r: Result<Command, RpcError>)
        ensures
            name@ == "virtualMerge"@ ==> r == Ok::<Command, RpcError>(Command::VirtualMerge),
            name@ != "virtualMerge"@ ==> (r matches Err(e) && e.code == -20101 && e.message@
                == "Invalid command"@),
    {
        lookup_command(name)
    }

    /// Whether `path` is a workspace file.
    pub fn is_workspace_file(&self, path: &str) -> (r: bool)
        ensures
            r == self.workspace_files().contains_key(path@),
    {
        wfiles_get(&self.server_data.workspace_files, path).is_some()
    }

    /// Parses `content` as the new text of the workspace file at `path`,
    /// which stays in its pack.
    fn reparse_workspace_file(&mut self, path: &str, content: String)
        requires
            old(self).wf(),
            old(self).workspace_files().contains_key(path@),
        ensures
            final(self).wf(),
            final(self).workspace_files() == old(self).workspace_files().insert(
                path@,
                final(self).workspace_files()[path@],
            ),
            final(self).workspace_files()[path@].pack == old(self).workspace_files()[path@].pack,
            holds_parse(final(self).workspace_files()[path@].file, content@),
            final(self).files() == old(self).files(),
            final(self).packs() == old(self).packs(),
            final(self).temp_lint_spec() == old(self).temp_lint_spec(),
            final(self).extensions_spec() == old(self).extensions_spec(),
    {
        let pack = match wfiles_get(&self.server_data.workspace_files, path) {
            Some(w) => w.pack.clone(),
            None => return,
        };
        let file = TempFile::new(&mut self.server_data.tree_sitter_parser, content);
        let ghost entry = WorkspaceFile { pack, file };
        wfiles_insert(&mut self.server_data.workspace_files, path.to_owned(), WorkspaceFile { pack, file });
        assert(self.workspace_files()[path@] == entry);
    }

    /// Opens the file at `path` with `content`. A workspace file takes the
    /// new text itself and stays in its pack, and the open files stay as
    /// they were; any other path becomes an open file with that text,
    /// replacing one open there. The settings stay as they were.
    pub fn open_file(&mut self, path: String, content: String)
        requires
            old(self).wf(),
        ensures
            final(self).wf(),
            old(self).workspace_files().contains_key(path@) ==> {
                &&& final(self).workspace_files() == old(self).workspace_files().insert(
                    path@,
                    final(self).workspace_files()[path@],
                )
                &&& final(self).workspace_files()[path@].pack == old(self).workspace_files()[path@].pack
                &&& holds_parse(final(self).workspace_files()[path@].file, content@)
                &&& final(self).files() == old(self).files()
            },
            !old(self).workspace_files().contains_key(path@) ==> {
                &&& final(self).files() == old(self).files().insert(path@, final(self).files()[path@])
                &&& holds_parse(final(self).files()[path@], content@)
                &&& final(self).workspace_files() == old(self).workspace_files()
            },
            final(self).packs() == old(self).packs(),
            final(self).temp_lint_spec() == old(self).temp_lint_spec(),
            final(self).extensions_spec() == old(self).extensions_spec(),
    {
        if self.is_workspace_file(path.as_str()) {
            self.reparse_workspace_file(path.as_str(), content);
        } else {
            let file = TempFile::new(&mut self.server_data.tree_sitter_parser, content);
            let ghost f = file;
            files_insert(&mut self.server_data.temp_files, path, file);
            assert(self.files()[path@] == f);
        }
    }

    /// Applies the editor's changes, in order, to the text of the file at
    /// `path`: of the workspace file there, else of the file open there, and
    /// parses the result. False, and nothing changes, when neither holds the
    /// path or a change does not fit the text. The settings stay as they
    /// were.
    pub fn change_file(&mut self, path: &str, changes: Vec<TextChange>) -> (r: bool)
        requires
            old(self).wf(),
        ensures
            final(self).wf(),
            r == (old(self).shader_files().contains_key(path@) && changes_spec(
                old(self).shader_files()[path@].tree.source_spec(),
                changes@,
            ) is Some),
            r && old(self).workspace_files().contains_key(path@) ==> {
                &&& final(self).workspace_files() == old(self).workspace_files().insert(
                    path@,
                    final(self).workspace_files()[path@],
                )
                &&& final(self).workspace_files()[path@].pack == old(self).workspace_files()[path@].pack
                &&& holds_parse(
                    final(self).workspace_files()[path@].file,
                    changes_spec(old(self).shader_files()[path@].tree.source_spec(), changes@).unwrap(),
                )
                &&& final(self).files() == old(self).files()
            },
            r && !old(self).workspace_files().contains_key(path@) ==> {
                &&& final(self).files() == old(self).files().insert(path@, final(self).files()[path@])
                &&& holds_parse(
                    final(self).files()[path@],
                    changes_spec(old(self).shader_files()[path@].tree.source_spec(), changes@).unwrap(),
                )
                &&& final(self).workspace_files() == old(self).workspace_files()
            },
            !r ==> final(self).files() == old(self).files() && final(self).workspace_files() == old(
                self,
            ).workspace_files(),
            final(self).packs() == old(self).packs(),
            final(self).temp_lint_spec() == old(self).temp_lint_spec(),
            final(self).extensions_spec() == old(self).extensions_spec(),
    {
        let content = match self.file(path) {
            Some(f) => match apply_changes(f.tree.source(), &changes) {
                Some(t) => t,
                None => return false,
            },
            None => return false,
        };
        if self.is_workspace_file(path) {
            self.reparse_workspace_file(path, content);
            return true;
        }
        let file = TempFile::new(&mut self.server_data.tree_sitter_parser, content);
        let ghost f = file;
        files_insert(&mut self.server_data.temp_files, path.to_owned(), file);
        assert(self.files()[path@] == f);
        true
    }

    /// Closes the file at `path`. A workspace file goes back to its text on
    /// disc, `disc_content`, when that could be read, and stays otherwise;
    /// any other path is no longer open. True for a workspace file, and
    /// otherwise whether a file was open there. The settings stay as they
    /// were.
    pub fn close_file(&mut self, path: &str, disc_content: Option<String>) -> (r: bool)
        requires
            old(self).wf(),
        ensures
            final(self).wf(),
            r == (old(self).workspace_files().contains_key(path@) || old(self).files().contains_key(path@)),
            old(self).workspace_files().contains_key(path@) ==> {
                &&& final(self).files() == old(self).files()
                &&& (disc_content matches Some(text) ==> {
                    &&& final(self).workspace_files() == old(self).workspace_files().insert(
                        path@,
                        final(self).workspace_files()[path@],
                    )
                    &&& final(self).workspace_files()[path@].pack == old(self).workspace_files()[path@].pack
                    &&& holds_parse(final(self).workspace_files()[path@].file, text@)
                })
                &&& disc_content is None ==> final(self).workspace_files() == old(self).workspace_files()
            },
            !old(self).workspace_files().contains_key(path@) ==> {
                &&& final(self).files() == old(self).files().remove(path@)
                &&& final(self).workspace_files() == old(self).workspace_files()
            },
            final(self).packs() == old(self).packs(),
            final(self).temp_lint_spec() == old(self).temp_lint_spec(),
            final(self).extensions_spec() == old(self).extensions_spec(),
    {
        if self.is_workspace_file(path) {
            match disc_content {
                Some(text) => self.reparse_workspace_file(path, text),
                None => {},
            }
            return true;
        }
        files_remove(&mut self.server_data.temp_files, path).is_some()
    }

    /// The shader file at `path` that requests read, if any: the workspace
    /// file there, else the file open there.
    pub fn file(&self, path: &str) -> (r: Option<&TempFile>)
        requires
            self.wf(),
        ensures
            r is Some <==> self.shader_files().contains_key(path@),
            r matches Some(f) ==> *f == self.shader_files()[path@] && f.wf(),
    {
        match wfiles_get(&self.server_data.workspace_files, path) {
            Some(w) => Some(&w.file),
            None => files_get(&self.server_data.temp_files, path),
        }
    }

    /// The hover at `position` in the shader file at `path`; `None` when no
    /// shader file is there.
    pub fn hover(&self, path: &str, position: Position) -> (r: Option<HoverInfo>)
        requires
            self.wf(),
        ensures
            !self.shader_files().contains_key(path@) ==> r is None,
            self.shader_files().contains_key(path@) ==> {
                let t = self.shader_files()[path@].tree;
                &&& r is Some <==> (current_node_spec(t, position) matches Some(cur) && hover_spec(t, cur) is Some)
                &&& r matches Some(h) ==> current_node_spec(t, position) == Some(h.node as int)
                    && h.markdown@ == hover_spec(t, h.node as int).unwrap()
            },
    {
        match self.file(path) {
            Some(file) => TreeParser::hover(position, &file.tree, &file.line_mapping),
            None => None,
        }
    }

    /// The definitions of the name at `position` in the shader file at `path`;
    /// `None` when no shader file is there.
    pub fn find_definitions(&self, path: &str, position: Position) -> (r: Option<Vec<usize>>)
        requires
            self.wf(),
        ensures
            !self.shader_files().contains_key(path@) ==> r is None,
            self.shader_files().contains_key(path@) ==> {
                let t = self.shader_files()[path@].tree;
                &&& r is Some <==> (current_node_spec(t, position) matches Some(cur) && definitions_spec(t, cur) is Some)
                &&& r matches Some(v) ==> (current_node_spec(t, position) matches Some(cur)
                    && Some(as_ints(v@)) == definitions_spec(t, cur))
            },
    {
        match self.file(path) {
            Some(file) => TreeParser::find_definitions(position, &file.tree, &file.line_mapping),
            None => None,
        }
    }

    /// The references of the name at `position` in the shader file at `path`;
    /// `None` when no shader file is there.
    pub fn references(&self, path: &str, position: Position) -> (r: Option<Vec<usize>>)
        requires
            self.wf(),
        ensures
            !self.shader_files().contains_key(path@) ==> r is None,
            self.shader_files().contains_key(path@) ==> {
                let t = self.shader_files()[path@].tree;
                &&& r is Some <==> (current_node_spec(t, position) matches Some(cur) && find_references_spec(t, cur) is Some)
                &&& r matches Some(v) ==> (current_node_spec(t, position) matches Some(cur)
                    && Some(as_ints(v@)) == find_references_spec(t, cur))
            },
    {
        match self.file(path) {
            Some(file) => TreeParser::find_references(position, &file.tree, &file.line_mapping),
            None => None,
        }
    }
}

/// Closing a file that was just opened leaves the other open files as they
/// were before the opening: opening and closing a file that was not open
/// changes nothing.
pub proof fn lemma_close_undoes_open(before: ServerCore, opened: ServerCore, closed: ServerCore, path: Seq<char>)
    requires
        opened.files().contains_key(path),
        opened.files() == before.files().insert(path, opened.files()[path]),
        closed.files() == opened.files().remove(path),
    ensures
        closed.files() == before.files().remove(path),
        !before.files().contains_key(path) ==> closed.files() == before.files(),
{
    assert(closed.files() =~= before.files().remove(path));
    if !before.files().contains_key(path) {
        assert(before.files().remove(path) =~= before.files());
    }
}

} // verus!
