//! The shader packs of the workspace folders and the shader files in them.
//!
//! A shader pack is known by the path of its folder; each workspace file is
//! known by its path and belongs to the pack in whose folder it lies. When a
//! workspace folder goes away, so do the packs under it and their files.

use vstd::prelude::*;
use hashbrown::{HashMap, HashSet};
use crate::store::TempFile;

verus! {

/// Whether a character separates the components of a path: `/`, or the
/// platform's own separator `sep`.
pub open spec fn is_separator(c: char, sep: char) -> bool {
    c == '/' || c == sep
}

/// The segments of the first `i` characters of a path: those that a
/// separator has closed, and the one still being read.
pub open spec fn segments_upto(s: Seq<char>, sep: char, i: int) -> (Seq<Seq<char>>, Seq<char>)
    decreases i,
{
    if i <= 0 {
        (Seq::empty(), Seq::empty())
    } else {
        let prev = segments_upto(s, sep, i - 1);
        if is_separator(s[i - 1], sep) {
            (if prev.1.len() > 0 {
                prev.0.push(prev.1)
            } else {
                prev.0
            }, Seq::empty())
        } else {
            (prev.0, prev.1.push(s[i - 1]))
        }
    }
}

/// The non-empty runs of characters between separators of a path.
pub open spec fn segments(s: Seq<char>, sep: char) -> Seq<Seq<char>> {
    let last = segments_upto(s, sep, s.len() as int);
    if last.1.len() > 0 {
        last.0.push(last.1)
    } else {
        last.0
    }
}

/// Whether a path starts at the root: with a separator.
pub open spec fn rooted(s: Seq<char>, sep: char) -> bool {
    s.len() > 0 && is_separator(s[0], sep)
}

/// The first `n` segments with the `.` segments dropped, but for a first
/// one of a path that does not start at the root.
pub open spec fn kept_segments(segs: Seq<Seq<char>>, root: bool, n: int) -> Seq<Seq<char>>
    decreases n,
{
    if n <= 0 {
        Seq::empty()
    } else {
        let prev = kept_segments(segs, root, n - 1);
        if segs[n - 1] == seq!['.'] && (n - 1 > 0 || root) {
            prev
        } else {
            prev.push(segs[n - 1])
        }
    }
}

/// The components of a path, as `Path::components` reads a Unix path: the
/// root (written as the separator) when the path starts with one, then the
/// segments between separators, leaving out empty ones and `.` ones but for
/// a leading `.`.
pub open spec fn components(s: Seq<char>, sep: char) -> Seq<Seq<char>> {
    let segs = segments(s, sep);
    let root = rooted(s, sep);
    (if root {
        seq![seq![sep]]
    } else {
        Seq::empty()
    }) + kept_segments(segs, root, segs.len() as int)
}

/// Whether `path` lies under the folder `base`, as `Path::starts_with`
/// decides: the components of `base` begin those of `path`.
pub open spec fn path_under(path: Seq<char>, base: Seq<char>, sep: char) -> bool {
    let pc = components(path, sep);
    let bc = components(base, sep);
    bc.len() <= pc.len() && pc.subrange(0, bc.len() as int) == bc
}

/// The views of a list of character vectors.
pub open spec fn char_views(v: Seq<Vec<char>>) -> Seq<Seq<char>> {
    v.map_values(|x: Vec<char>| x@)
}

/// The components of a path.
pub fn path_components(s: &str, sep: char) -> (r: Vec<Vec<char>>)
    ensures
        char_views(r@) == components(s@, sep),
{
    let n = s.unicode_len();
    let mut done: Vec<Vec<char>> = Vec::new();
    let mut cur: Vec<char> = Vec::new();
    let mut i: usize = 0;
    assert(char_views(done@) =~= segments_upto(s@, sep, 0).0);
    while i < n
        invariant
            n == s@.len(),
            i <= n,
            char_views(done@) == segments_upto(s@, sep, i as int).0,
            cur@ == segments_upto(s@, sep, i as int).1,
        decreases n - i,
    {
        let c = s.get_char(i);
        if c == '/' || c == sep {
            if cur.len() > 0 {
                let ghost d = char_views(done@);
                let ghost cv = cur@;
                done.push(cur);
                assert(char_views(done@) =~= d.push(cv));
                cur = Vec::new();
            }
            assert(cur@ =~= Seq::<char>::empty());
        } else {
            cur.push(c);
        }
        i = i + 1;
    }
    if cur.len() > 0 {
        let ghost d = char_views(done@);
        let ghost cv = cur@;
        done.push(cur);
        assert(char_views(done@) =~= d.push(cv));
    }
    let segs = done;
    let ghost sv = segments(s@, sep);
    assert(char_views(segs@) == sv);
    let root = n > 0 && {
        let c = s.get_char(0);
        c == '/' || c == sep
    };
    let mut r: Vec<Vec<char>> = Vec::new();
    if root {
        let mut marker: Vec<char> = Vec::new();
        marker.push(sep);
        r.push(marker);
    }
    let ghost head: Seq<Seq<char>> = if root {
        seq![seq![sep]]
    } else {
        Seq::empty()
    };
    assert(char_views(r@) =~= head + kept_segments(sv, root, 0));
    let mut k: usize = 0;
    while k < segs.len()
        invariant
            k <= segs@.len(),
            char_views(segs@) == sv,
            root == rooted(s@, sep),
            char_views(r@) == head + kept_segments(sv, root, k as int),
        decreases segs@.len() - k,
    {
        let seg = &segs[k];
        assert(seg@ == sv[k as int]);
        let is_dot = seg.len() == 1 && seg[0] == '.';
        assert(is_dot == (sv[k as int] == seq!['.'])) by {
            if sv[k as int] == seq!['.'] {
                assert(seg@[0] == '.');
            }
            if is_dot {
                assert(seg@ =~= seq!['.']);
            }
        }
        if !(is_dot && (k > 0 || root)) {
            let ghost before = char_views(r@);
            r.push(seg.clone());
            assert(char_views(r@) =~= before.push(seg@));
        }
        assert(char_views(r@) =~= head + kept_segments(sv, root, k + 1));
        k = k + 1;
    }
    r
}

/// Whether two character vectors hold the same characters.
fn chars_eq(a: &Vec<char>, b: &Vec<char>) -> (r: bool)
    ensures
        r == (a@ == b@),
{
    if a.len() != b.len() {
        return false;
    }
    let mut i: usize = 0;
    while i < a.len()
        invariant
            a@.len() == b@.len(),
            i <= a@.len(),
            forall|k: int| 0 <= k < i ==> a@[k] == b@[k],
        decreases a@.len() - i,
    {
        if a[i] != b[i] {
            return false;
        }
        i = i + 1;
    }
    assert(a@ =~= b@);
    true
}

/// Whether `path` lies under the folder `base`, component by component.
pub fn is_path_under(path: &str, base: &str, sep: char) -> (r: bool)
    ensures
        r == path_under(path@, base@, sep),
{
    let pc = path_components(path, sep);
    let bc = path_components(base, sep);
    if bc.len() > pc.len() {
        return false;
    }
    let mut i: usize = 0;
    while i < bc.len()
        invariant
            bc@.len() <= pc@.len(),
            i <= bc@.len(),
            char_views(pc@) == components(path@, sep),
            char_views(bc@) == components(base@, sep),
            forall|k: int| 0 <= k < i ==> char_views(pc@)[k] == char_views(bc@)[k],
        decreases bc@.len() - i,
    {
        if !chars_eq(&pc[i], &bc[i]) {
            assert(char_views(pc@).subrange(0, bc@.len() as int)[i as int] != char_views(bc@)[i as int]);
            return false;
        }
        i = i + 1;
    }
    assert(char_views(pc@).subrange(0, bc@.len() as int) =~= char_views(bc@));
    true
}

/// The shader packs, by the path of their folder, held in a
/// `hashbrown::HashSet`, whose contents `pack_paths` names.
#[verifier::external_body]
pub struct ShaderPacks {
    set: HashSet<String>,
}

/// What a set of shader packs holds: the paths of their folders.
pub uninterp spec fn pack_paths(s: ShaderPacks) -> Set<Seq<char>>;

/// `HashSet::new`: a set that holds nothing.
#[verifier::external_body]
pub(crate) fn packs_new() -> (r: ShaderPacks)
    ensures
        pack_paths(r) == Set::<Seq<char>>::empty(),
{
    ShaderPacks { set: HashSet::new() }
}

/// `HashSet::insert`: afterwards the set holds `path` besides what it held.
#[verifier::external_body]
pub(crate) fn packs_insert(s: &mut ShaderPacks, path: String) -> (r: bool)
    ensures
        pack_paths(*final(s)) == pack_paths(*old(s)).insert(path@),
        r == !pack_paths(*old(s)).contains(path@),
{
    s.set.insert(path)
}

/// `HashSet::remove` with a `&str` value: afterwards the set no longer holds
/// `path`; true when it held it.
#[verifier::external_body]
pub(crate) fn packs_remove(s: &mut ShaderPacks, path: &str) -> (r: bool)
    ensures
        pack_paths(*final(s)) == pack_paths(*old(s)).remove(path@),
        r == pack_paths(*old(s)).contains(path@),
{
    s.set.remove(path)
}

/// `HashSet::iter`, each path cloned: every path the set holds, once, in
/// the set's own order.
#[verifier::external_body]
pub(crate) fn packs_list(s: &ShaderPacks) -> (r: Vec<String>)
    ensures
        forall|i: int| 0 <= i < r@.len() ==> pack_paths(*s).contains(#[trigger] r@[i]@),
        forall|p: Seq<char>| #[trigger] pack_paths(*s).contains(p) ==> exists|i: int| 0 <= i < r@.len() && r@[i]@ == p,
        forall|i: int, j: int| 0 <= i < j < r@.len() ==> r@[i]@ != r@[j]@,
{
    s.set.iter().cloned().collect()
}

/// A shader file of a workspace folder: the folder of its shader pack and
/// the file as parsed.
pub struct WorkspaceFile {
    pub pack: String,
    pub file: TempFile,
}

/// The workspace files by path, held in a `hashbrown::HashMap`, whose
/// contents `workspace_entries` names.
#[verifier::external_body]
pub struct WorkspaceFiles {
    map: HashMap<String, WorkspaceFile>,
}

/// What a map of workspace files holds: the file under each path.
pub uninterp spec fn workspace_entries(m: WorkspaceFiles) -> Map<Seq<char>, WorkspaceFile>;

/// `HashMap::new`: a map that holds nothing.
#[verifier::external_body]
pub(crate) fn wfiles_new() -> (r: WorkspaceFiles)
    ensures
        workspace_entries(r).dom() == Set::<Seq<char>>::empty(),
{
    WorkspaceFiles { map: HashMap::new() }
}

/// `HashMap::get` with a `&str` key: the file held under the path equal to
/// `path`, if any.
#[verifier::external_body]
pub(crate) fn wfiles_get<'a>(m: &'a WorkspaceFiles, path: &str) -> (r: Option<&'a WorkspaceFile>)
    ensures
        r is Some <==> workspace_entries(*m).contains_key(path@),
        r matches Some(f) ==> *f == workspace_entries(*m)[path@],
{
    m.map.get(path)
}

/// `HashMap::insert`: afterwards `path` holds `file`, and every other path
/// holds what it held.
#[verifier::external_body]
pub(crate) fn wfiles_insert(m: &mut WorkspaceFiles, path: String, file: WorkspaceFile) -> (r: Option<WorkspaceFile>)
    ensures
        workspace_entries(*final(m)) == workspace_entries(*old(m)).insert(path@, file),
        r is Some <==> workspace_entries(*old(m)).contains_key(path@),
        r matches Some(f) ==> f == workspace_entries(*old(m))[path@],
{
    m.map.insert(path, file)
}

/// `HashMap::remove` with a `&str` key: afterwards the map no longer holds
/// `path`.
#[verifier::external_body]
pub(crate) fn wfiles_remove(m: &mut WorkspaceFiles, path: &str) -> (r: Option<WorkspaceFile>)
    ensures
        workspace_entries(*final(m)) == workspace_entries(*old(m)).remove(path@),
        r is Some <==> workspace_entries(*old(m)).contains_key(path@),
        r matches Some(f) ==> f == workspace_entries(*old(m))[path@],
{
    m.map.remove(path)
}

/// `HashMap::iter`, each path cloned with its pack's folder: every path the
/// map holds, once, in the map's own order.
#[verifier::external_body]
pub(crate) fn wfiles_list(m: &WorkspaceFiles) -> (r: Vec<(String, String)>)
    ensures
        forall|i: int|
            0 <= i < r@.len() ==> workspace_entries(*m).contains_key(#[trigger] r@[i].0@)
                && workspace_entries(*m)[r@[i].0@].pack@ == r@[i].1@,
        forall|k: Seq<char>| #[trigger] workspace_entries(*m).contains_key(k) ==> exists|i: int| 0 <= i < r@.len() && r@[i].0@ == k,
        forall|i: int, j: int| 0 <= i < j < r@.len() ==> r@[i].0@ != r@[j].0@,
{
    m.map.iter().map(|(k, v)| (k.clone(), v.pack.clone())).collect()
}

} // verus!
