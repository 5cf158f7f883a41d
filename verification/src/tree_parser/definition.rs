//! Go-to-definition within a single file.
//!
//! At the name of a called function the answer is every place in the file
//! where a function of that name is defined; at any other identifier it is
//! the definition of the variable it names, found as the reference search
//! finds it.

use vstd::prelude::*;
use crate::syntax::{SyntaxTree, as_ints, collect, node_ok, str_eq};
use crate::tree_parser::{TreeParser, current_node_spec};
use crate::tree_parser::reference::{plain_name, resolve_spec, is_plain_name, lemma_collect_contains, lemma_resolved_definition};
use crate::position::{Position, line_starts_spec};

verus! {

/// Whether node `j` is the name of a function definition named `name`: an
/// identifier held by a `function_declarator` or a `preproc_function_def`.
pub open spec fn defines_function(t: SyntaxTree, name: Seq<u8>) -> spec_fn(int) -> bool {
    |j: int|
        t.kind(j) == "identifier"@ && (t.node(j).parent matches Some(p) && (t.kind(p as int)
            == "function_declarator"@ || t.kind(p as int) == "preproc_function_def"@))
            && t.text_bytes(j) == name
}

/// The definitions of the function named `name`, in source order.
pub open spec fn function_definitions_spec(t: SyntaxTree, name: Seq<u8>) -> Seq<int> {
    if plain_name(name) {
        collect(0, t.len() as int, defines_function(t, name))
    } else {
        Seq::empty()
    }
}

/// The answer to a go-to-definition request at node `cur`: at an
/// identifier held by a `call_expression`, the definitions of the function
/// it names; at another identifier, the definition of the variable it
/// names; `None` elsewhere or when that variable has no definition.
pub open spec fn definitions_spec(t: SyntaxTree, cur: int) -> Option<Seq<int>> {
    if t.kind(cur) != "identifier"@ {
        None
    } else if t.node(cur).parent matches Some(p) && t.kind(p as int) == "call_expression"@ {
        Some(function_definitions_spec(t, t.text_bytes(cur)))
    } else {
        match resolve_spec(t, cur) {
            Some(d) => Some(seq![d]),
            None => None,
        }
    }
}

/// The function definitions of a name are exactly the identifiers of that
/// name held by a `function_declarator` or a `preproc_function_def`, for a
/// name that the searches look for.
pub proof fn lemma_function_definitions_exact(t: SyntaxTree, name: Seq<u8>, k: int)
    requires
        t.wf(),
    ensures
        function_definitions_spec(t, name).contains(k) <==> (plain_name(name) && 0 <= k < t.len()
            && t.kind(k) == "identifier"@ && t.text_bytes(k) == name && (t.node(k).parent matches Some(p)
            && (t.kind(p as int) == "function_declarator"@ || t.kind(p as int) == "preproc_function_def"@))),
{
    if plain_name(name) {
        lemma_collect_contains(0, t.len() as int, defines_function(t, name), k);
    }
}

/// At a called name, go-to-definition answers with the function definitions
/// of that name.
pub proof fn lemma_definitions_at_call(t: SyntaxTree, cur: int)
    requires
        t.wf(),
        0 <= cur < t.len(),
        t.kind(cur) == "identifier"@,
        t.node(cur).parent matches Some(p) && t.kind(p as int) == "call_expression"@,
    ensures
        definitions_spec(t, cur) == Some(function_definitions_spec(t, t.text_bytes(cur))),
{
}

/// At an identifier that is not a called name, go-to-definition answers
/// with the definition its variable resolves to, when there is one.
pub proof fn lemma_definitions_at_variable(t: SyntaxTree, cur: int)
    requires
        t.wf(),
        0 <= cur < t.len(),
        t.kind(cur) == "identifier"@,
        !(t.node(cur).parent matches Some(p) && t.kind(p as int) == "call_expression"@),
        resolve_spec(t, cur) is Some,
    ensures
        definitions_spec(t, cur) == Some(seq![resolve_spec(t, cur).unwrap()]),
{
}

/// Every definition that go-to-definition answers with is an identifier of
/// the same name as the one it was asked at.
pub proof fn lemma_definitions_named(t: SyntaxTree, cur: int, k: int)
    requires
        t.wf(),
        0 <= cur < t.len(),
        definitions_spec(t, cur) matches Some(v) && v.contains(k),
    ensures
        0 <= k < t.len(),
        t.kind(k) == "identifier"@,
        t.text_bytes(k) == t.text_bytes(cur),
{
    if t.node(cur).parent matches Some(p) && t.kind(p as int) == "call_expression"@ {
        lemma_collect_contains(0, t.len() as int, defines_function(t, t.text_bytes(cur)), k);
    } else {
        lemma_resolved_definition(t, cur);
    }
}

impl TreeParser {
    /// The definitions of the function named `name`, in source order.
    pub fn function_definitions(tree: &SyntaxTree, name: &[u8]) -> (r: Vec<usize>)
        requires
            tree.wf(),
        ensures
            as_ints(r@) == function_definitions_spec(*tree, name@),
            forall|i: int| 0 <= i < r@.len() ==> r@[i] < tree.len(),
    {
        if !is_plain_name(name) {
            let r: Vec<usize> = Vec::new();
            assert(as_ints(r@) =~= Seq::<int>::empty());
            return r;
        }
        let n = tree.node_count();
        let ghost p = defines_function(*tree, name@);
        let mut out: Vec<usize> = Vec::new();
        let mut j: usize = 0;
        assert(as_ints(out@) =~= collect(0, 0, p));
        while j < n
            invariant
                tree.wf(),
                n == tree.len(),
                j <= n,
                p == defines_function(*tree, name@),
                as_ints(out@) == collect(0, j as int, p),
                forall|i: int| 0 <= i < out@.len() ==> out@[i] < tree.len(),
            decreases n - j,
        {
            let node = tree.get(j);
            let mut keep = false;
            if str_eq(node.kind.as_str(), "identifier") && crate::syntax::bytes_eq(
                tree.node_text(j).as_bytes(),
                name,
            ) {
                assert(node_ok(tree.bytes(), tree.nodes_spec(), j as int));
                match node.parent {
                    Some(q) => {
                        let pk = tree.get(q).kind.as_str();
                        keep = str_eq(pk, "function_declarator") || str_eq(pk, "preproc_function_def");
                    },
                    None => {},
                }
            }
            assert(keep == p(j as int));
            if keep {
                out.push(j);
            }
            assert(as_ints(out@) =~= collect(0, j + 1, p));
            j = j + 1;
        }
        out
    }

    /// The definitions of the name at node `cur`.
    pub fn find_definitions_node(tree: &SyntaxTree, cur: usize) -> (r: Option<Vec<usize>>)
        requires
            tree.wf(),
            cur < tree.len(),
        ensures
            r is Some <==> definitions_spec(*tree, cur as int) is Some,
            r matches Some(v) ==> Some(as_ints(v@)) == definitions_spec(*tree, cur as int)
                && forall|i: int| 0 <= i < v@.len() ==> v@[i] < tree.len(),
    {
        let node = tree.get(cur);
        if !str_eq(node.kind.as_str(), "identifier") {
            return None;
        }
        assert(node_ok(tree.bytes(), tree.nodes_spec(), cur as int));
        let in_call = match node.parent {
            Some(p) => str_eq(tree.get(p).kind.as_str(), "call_expression"),
            None => false,
        };
        if in_call {
            Some(Self::function_definitions(tree, tree.node_text(cur).as_bytes()))
        } else {
            match Self::resolve_variable_definition(tree, cur) {
                Some(d) => {
                    let mut v: Vec<usize> = Vec::new();
                    v.push(d);
                    assert(as_ints(v@) =~= seq![d as int]);
                    Some(v)
                },
                None => None,
            }
        }
    }

    /// The definitions of the name under the cursor at an editor position.
    pub fn find_definitions(position: Position, tree: &SyntaxTree, line_mapping: &Vec<usize>) -> (r: Option<Vec<usize>>)
        requires
            tree.wf(),
            as_ints(line_mapping@) == line_starts_spec(tree.bytes()),
        ensures
            r is Some <==> (current_node_spec(*tree, position) matches Some(cur)
                && definitions_spec(*tree, cur) is Some),
            r matches Some(v) ==> (current_node_spec(*tree, position) matches Some(cur)
                && Some(as_ints(v@)) == definitions_spec(*tree, cur)),
    {
        let cur = match Self::current_node_fetch(position, tree, line_mapping) {
            Some(c) => c,
            None => return None,
        };
        Self::find_definitions_node(tree, cur)
    }
}

} // verus!
