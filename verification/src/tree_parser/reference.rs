//! Definitions and references of variables and functions.
//!
//! A variable's definition is found by walking up from the identifier: in
//! the subtree of each ancestor in turn (the identifier itself first), the
//! last declared identifier of the same name that starts before the end of
//! the identifier is its definition. A variable's references are the
//! identifiers of the same name in the definition's scope whose definition
//! is that same definition.

use vstd::prelude::*;
use crate::syntax::{SyntaxNode, SyntaxTree, as_ints, collect, last_where, lemma_last_where, node_ok, str_eq, bytes_eq};
use crate::tree_parser::{TreeParser, current_node_spec};
use crate::position::{Position, line_starts_spec};

verus! {

/// Whether a byte may stand in a name that the definition and reference
/// searches look for: an ASCII letter or digit, `_`, or a byte of a
/// non-ASCII character.
pub open spec fn is_name_byte(b: u8) -> bool {
    ||| (0x30 <= b && b <= 0x39)
    ||| (0x41 <= b && b <= 0x5a)
    ||| (0x61 <= b && b <= 0x7a)
    ||| b == 0x5f
    ||| b >= 0x80
}

/// Whether every byte of a name may stand in a searched name.
pub open spec fn plain_name(name: Seq<u8>) -> bool {
    forall|k: int| 0 <= k < name.len() ==> #[trigger] is_name_byte(name[k])
}

/// The field under which a declaring node holds the identifier it declares,
/// for the node kinds that declare variables.
pub open spec fn declared_field(parent_kind: Seq<char>) -> Option<Seq<char>> {
    if parent_kind == "init_declarator"@ || parent_kind == "parameter_declaration"@ || parent_kind
        == "declaration"@ {
        Some("declarator"@)
    } else if parent_kind == "preproc_def"@ {
        Some("name"@)
    } else {
        None
    }
}

/// Whether node `j` is an identifier that declares a variable named `name`:
/// the `declarator` of an `init_declarator`, a `parameter_declaration` or a
/// `declaration`, or the `name` of a `preproc_def`.
pub open spec fn declares(t: SyntaxTree, j: int, name: Seq<u8>) -> bool {
    &&& t.kind(j) == "identifier"@
    &&& t.node(j).parent matches Some(p)
    &&& declared_field(t.kind(p as int)) matches Some(f)
    &&& t.node(j).field matches Some(g)
    &&& g@ == f
    &&& t.text_bytes(j) == name
}

/// Whether node `j` lies in a search of the bytes before `limit`: it ends
/// after the first byte and, unless `limit` is zero (no bound), starts
/// before `limit`.
pub open spec fn before_limit(t: SyntaxTree, j: int, limit: int) -> bool {
    t.node(j).end_byte > 0 && (limit == 0 || t.node(j).start_byte < limit)
}

/// Whether node `j` is a definition of `name` that a search in the subtree
/// of `scope`, bounded by `limit`, finds: its declaring node lies in that
/// subtree.
pub open spec fn definition_in(t: SyntaxTree, scope: int, name: Seq<u8>, limit: int) -> spec_fn(
    int,
) -> bool {
    |j: int|
        declares(t, j, name) && t.in_subtree(scope, t.node(j).parent.unwrap() as int)
            && before_limit(t, j, limit)
}

/// The last definition of `name` that the search in the subtree of `scope`
/// finds.
pub open spec fn last_definition_in(t: SyntaxTree, scope: int, name: Seq<u8>, limit: int) -> Option<
    int,
> {
    last_where(scope, t.node(scope).subtree_end as int, definition_in(t, scope, name, limit))
}

/// The definition found by searching the subtree of `a`, then those of its
/// ancestors in turn.
pub open spec fn resolve_from(t: SyntaxTree, a: int, name: Seq<u8>, limit: int) -> Option<int>
    decreases a,
{
    if a < 0 || a >= t.len() {
        None
    } else {
        match last_definition_in(t, a, name, limit) {
            Some(j) => Some(j),
            None => match t.node(a).parent {
                Some(p) => if p < a {
                    resolve_from(t, p as int, name, limit)
                } else {
                    None
                },
                None => None,
            },
        }
    }
}

/// The definition of the variable named by node `start`: searched from
/// `start` upwards, bounded by the end of `start`; none when the name holds
/// a byte that no searched name holds.
pub open spec fn resolve_spec(t: SyntaxTree, start: int) -> Option<int> {
    let name = t.text_bytes(start);
    if plain_name(name) {
        resolve_from(t, start, name, t.node(start).end_byte as int)
    } else {
        None
    }
}

/// The node kinds that bound the scope of a variable.
pub open spec fn is_scope_kind(kind: Seq<char>) -> bool {
    kind == "compound_statement"@ || kind == "function_definition"@ || kind
        == "preproc_function_def"@ || kind == "translation_unit"@
}

/// The first of `a` and its ancestors that bounds a scope; `d` when none does.
pub open spec fn scope_from(t: SyntaxTree, a: int, d: int) -> int
    decreases a,
{
    if a < 0 || a >= t.len() {
        d
    } else if is_scope_kind(t.kind(a)) {
        a
    } else {
        match t.node(a).parent {
            Some(p) => if p < a {
                scope_from(t, p as int, d)
            } else {
                d
            },
            None => d,
        }
    }
}

/// The scope in which the references of definition `d` are searched: its
/// nearest proper ancestor that bounds a scope, or `d` itself when none does.
pub open spec fn reference_scope_spec(t: SyntaxTree, d: int) -> int {
    match t.node(d).parent {
        Some(p) => scope_from(t, p as int, d),
        None => d,
    }
}

/// Whether two nodes cover the same range of the source.
pub open spec fn same_range(a: SyntaxNode, b: SyntaxNode) -> bool {
    &&& a.start_byte == b.start_byte
    &&& a.end_byte == b.end_byte
    &&& a.start_point == b.start_point
    &&& a.end_point == b.end_point
}

/// Whether node `j` is a reference to definition `d`: an identifier with
/// the same name whose definition covers the range of `d`.
pub open spec fn refers_to(t: SyntaxTree, d: int) -> spec_fn(int) -> bool {
    |j: int|
        t.kind(j) == "identifier"@ && t.text_bytes(j) == t.text_bytes(d) && (resolve_spec(t, j) matches Some(
            k,
        ) && same_range(t.node(k), t.node(d)))
}

/// The references of definition `d`, in source order.
pub open spec fn variable_references_spec(t: SyntaxTree, d: int) -> Seq<int> {
    if plain_name(t.text_bytes(d)) {
        let s = reference_scope_spec(t, d);
        collect(s, t.node(s).subtree_end as int, refers_to(t, d))
    } else {
        Seq::empty()
    }
}

/// Whether node `j` calls a function named `name`: an identifier held by a
/// `call_expression`.
pub open spec fn calls(t: SyntaxTree, name: Seq<u8>) -> spec_fn(int) -> bool {
    |j: int|
        t.kind(j) == "identifier"@ && (t.node(j).parent matches Some(p) && t.kind(p as int)
            == "call_expression"@) && t.text_bytes(j) == name
}

/// The calls of the function named `name`, in source order.
pub open spec fn function_references_spec(t: SyntaxTree, name: Seq<u8>) -> Seq<int> {
    if plain_name(name) {
        collect(0, t.len() as int, calls(t, name))
    } else {
        Seq::empty()
    }
}

/// The answer to a references request at node `cur`; `None` when the node
/// is not a name whose references are searched, or a variable's definition
/// is not found.
pub open spec fn find_references_spec(t: SyntaxTree, cur: int) -> Option<Seq<int>> {
    match t.node(cur).parent {
        None => None,
        Some(p) => {
            let pk = t.kind(p as int);
            let k = t.kind(cur);
            if pk == "function_declarator"@ || pk == "preproc_function_def"@ {
                Some(function_references_spec(t, t.text_bytes(cur)))
            } else if k == "identifier"@ && (pk == "parameter_declaration"@ || pk
                == "declaration"@ || pk == "init_declarator"@ || pk == "preproc_def"@) {
                if pk == "init_declarator"@ && t.node(cur).sibling_index > 0 {
                    match resolve_spec(t, cur) {
                        Some(d) => Some(variable_references_spec(t, d)),
                        None => None,
                    }
                } else {
                    Some(variable_references_spec(t, cur))
                }
            } else if k == "identifier"@ && (pk == "argument_list"@ || pk == "field_expression"@
                || pk == "binary_expression"@ || pk == "return_statement"@ || pk
                == "assignment_expression"@) {
                match resolve_spec(t, cur) {
                    Some(d) => Some(variable_references_spec(t, d)),
                    None => None,
                }
            } else {
                None
            }
        },
    }
}

/// Whether node `a` is node `x` or one of its ancestors.
pub open spec fn ancestor_or_self(t: SyntaxTree, a: int, x: int) -> bool
    decreases x,
{
    if a == x {
        true
    } else if x < 0 || x >= t.len() {
        false
    } else {
        match t.node(x).parent {
            Some(p) => if p < x {
                ancestor_or_self(t, a, p as int)
            } else {
                false
            },
            None => false,
        }
    }
}

/// `collect` lists exactly the indices in its range that satisfy `p`.
pub proof fn lemma_collect_contains(lo: int, hi: int, p: spec_fn(int) -> bool, k: int)
    ensures
        collect(lo, hi, p).contains(k) <==> (lo <= k < hi && p(k)),
    decreases hi - lo,
{
    if hi > lo {
        lemma_collect_contains(lo, hi - 1, p, k);
        let prev = collect(lo, hi - 1, p);
        if p(hi - 1) {
            assert(prev.push(hi - 1)[prev.len() as int] == hi - 1);
            if prev.contains(k) {
                let i = choose|i: int| 0 <= i < prev.len() && prev[i] == k;
                assert(prev.push(hi - 1)[i] == k);
            }
            let ext = prev.push(hi - 1);
            if ext.contains(k) && k != hi - 1 {
                let i = choose|i: int| 0 <= i < ext.len() && #[trigger] ext[i] == k;
                assert(prev[i] == k);
            }
        }
    }
}

/// `collect` lists its indices in increasing order.
pub proof fn lemma_collect_increasing(lo: int, hi: int, p: spec_fn(int) -> bool)
    ensures
        forall|i: int, j: int|
            0 <= i < j < collect(lo, hi, p).len() ==> collect(lo, hi, p)[i] < collect(
                lo,
                hi,
                p,
            )[j],
        forall|i: int| 0 <= i < collect(lo, hi, p).len() ==> lo <= #[trigger] collect(lo, hi, p)[i] < hi,
    decreases hi - lo,
{
    if hi > lo {
        lemma_collect_increasing(lo, hi - 1, p);
        let prev = collect(lo, hi - 1, p);
        if p(hi - 1) {
            let c = prev.push(hi - 1);
            assert(collect(lo, hi, p) == c);
            assert forall|i: int| 0 <= i < c.len() implies lo <= #[trigger] c[i] < hi by {
                if i < prev.len() {
                    assert(c[i] == prev[i]);
                }
            }
            assert forall|i: int, j: int| 0 <= i < j < c.len() implies c[i] < c[j] by {
                assert(c[i] == prev[i]);
                if j < prev.len() {
                    assert(c[j] == prev[j]);
                }
            }
        }
    }
}

/// A definition that the search from `a` finds declares the name, lies
/// before the limit, and is declared in the subtree of `a` or of one of its
/// ancestors.
pub proof fn lemma_resolve_from(t: SyntaxTree, a: int, name: Seq<u8>, limit: int)
    requires
        t.wf(),
    ensures
        resolve_from(t, a, name, limit) matches Some(j) ==> 0 <= j < t.len() && declares(t, j, name)
            && before_limit(t, j, limit) && exists|b: int|
            #[trigger] ancestor_or_self(t, b, a) && 0 <= b < t.len() && t.in_subtree(
                b,
                t.node(j).parent.unwrap() as int,
            ),
    decreases a,
{
    if 0 <= a < t.len() {
        lemma_last_where(a, t.node(a).subtree_end as int, definition_in(t, a, name, limit));
        match last_definition_in(t, a, name, limit) {
            Some(j) => {
                assert(node_ok(t.bytes(), t.nodes_spec(), a));
                assert(ancestor_or_self(t, a, a));
            },
            None => {
                match t.node(a).parent {
                    Some(q) => {
                        if q < a {
                            lemma_resolve_from(t, q as int, name, limit);
                            if resolve_from(t, q as int, name, limit) is Some {
                                let b = choose|b: int|
                                    #[trigger] ancestor_or_self(t, b, q as int) && 0 <= b < t.len()
                                        && t.in_subtree(
                                        b,
                                        t.node(resolve_from(t, q as int, name, limit).unwrap()).parent.unwrap() as int,
                                    );
                                assert(ancestor_or_self(t, b, a));
                            }
                        }
                    },
                    None => {},
                }
            },
        }
    }
}

/// The definition of a variable declares the variable's own name, starts
/// before the end of the identifier that names it, and is declared in the
/// subtree of that identifier or of one of its ancestors.
pub proof fn lemma_resolved_definition(t: SyntaxTree, start: int)
    requires
        t.wf(),
        0 <= start < t.len(),
    ensures
        resolve_spec(t, start) matches Some(j) ==> 0 <= j < t.len() && declares(
            t,
            j,
            t.text_bytes(start),
        ) && t.text_bytes(j) == t.text_bytes(start) && before_limit(
            t,
            j,
            t.node(start).end_byte as int,
        ) && exists|b: int|
            #[trigger] ancestor_or_self(t, b, start) && 0 <= b < t.len() && t.in_subtree(
                b,
                t.node(j).parent.unwrap() as int,
            ),
{
    lemma_resolve_from(t, start, t.text_bytes(start), t.node(start).end_byte as int);
}

/// The references of a variable are exactly the identifiers in the scope of
/// its definition that have the variable's name and resolve to a definition
/// covering the same range; none when the name is not a searched one.
pub proof fn lemma_references_exact(t: SyntaxTree, d: int, k: int)
    requires
        t.wf(),
        0 <= d < t.len(),
    ensures
        variable_references_spec(t, d).contains(k) <==> (plain_name(t.text_bytes(d)) && t.in_subtree(
            reference_scope_spec(t, d),
            k,
        ) && t.kind(k) == "identifier"@ && t.text_bytes(k) == t.text_bytes(d) && (resolve_spec(
            t,
            k,
        ) matches Some(e) && same_range(t.node(e), t.node(d)))),
{
    if plain_name(t.text_bytes(d)) {
        let s = reference_scope_spec(t, d);
        lemma_collect_contains(s, t.node(s).subtree_end as int, refers_to(t, d), k);
    }
}

/// At an identifier used as a value (held by an argument list, a field
/// expression, a binary expression, a return statement or an assignment) or
/// as the value of an initialized declarator (any child but its first), the
/// references answer is the list of references of the definition the
/// identifier resolves to; with no definition, there is no answer.
pub proof fn lemma_references_at_use(t: SyntaxTree, cur: int)
    requires
        t.wf(),
        0 <= cur < t.len(),
        t.kind(cur) == "identifier"@,
        t.node(cur).parent matches Some(p) && ({
            let pk = t.kind(p as int);
            ||| pk == "argument_list"@
            ||| pk == "field_expression"@
            ||| pk == "binary_expression"@
            ||| pk == "return_statement"@
            ||| pk == "assignment_expression"@
            ||| pk == "init_declarator"@ && t.node(cur).sibling_index > 0
        }),
    ensures
        resolve_spec(t, cur) matches Some(d) ==> find_references_spec(t, cur) == Some(
            variable_references_spec(t, d),
        ),
        resolve_spec(t, cur) is None ==> find_references_spec(t, cur) is None,
{
    let p = t.node(cur).parent.unwrap();
    let pk = t.kind(p as int);
    reveal_strlit("argument_list");
    reveal_strlit("field_expression");
    reveal_strlit("binary_expression");
    reveal_strlit("return_statement");
    reveal_strlit("assignment_expression");
    reveal_strlit("init_declarator");
    reveal_strlit("function_declarator");
    reveal_strlit("preproc_function_def");
    reveal_strlit("parameter_declaration");
    reveal_strlit("declaration");
    reveal_strlit("preproc_def");
    if pk != "init_declarator"@ {
        assert(pk != "function_declarator"@ && pk != "preproc_function_def"@) by {
            if pk == "argument_list"@ {
                assert("argument_list"@[0] != "function_declarator"@[0]);
                assert("argument_list"@[0] != "preproc_function_def"@[0]);
            } else if pk == "field_expression"@ {
                assert("field_expression"@[1] != "function_declarator"@[1]);
                assert("field_expression"@[0] != "preproc_function_def"@[0]);
            } else if pk == "binary_expression"@ {
                assert("binary_expression"@[0] != "function_declarator"@[0]);
                assert("binary_expression"@[0] != "preproc_function_def"@[0]);
            } else if pk == "return_statement"@ {
                assert("return_statement"@[0] != "function_declarator"@[0]);
                assert("return_statement"@[0] != "preproc_function_def"@[0]);
            } else {
                assert("assignment_expression"@[0] != "function_declarator"@[0]);
                assert("assignment_expression"@[0] != "preproc_function_def"@[0]);
            }
        }
        assert(pk != "parameter_declaration"@ && pk != "declaration"@ && pk != "preproc_def"@) by {
            if pk == "argument_list"@ {
                assert("argument_list"@[0] != "parameter_declaration"@[0]);
                assert("argument_list"@[0] != "declaration"@[0]);
                assert("argument_list"@[0] != "preproc_def"@[0]);
            } else if pk == "field_expression"@ {
                assert("field_expression"@[0] != "parameter_declaration"@[0]);
                assert("field_expression"@[0] != "declaration"@[0]);
                assert("field_expression"@[0] != "preproc_def"@[0]);
            } else if pk == "binary_expression"@ {
                assert("binary_expression"@[0] != "parameter_declaration"@[0]);
                assert("binary_expression"@[0] != "declaration"@[0]);
                assert("binary_expression"@[0] != "preproc_def"@[0]);
            } else if pk == "return_statement"@ {
                assert("return_statement"@[0] != "parameter_declaration"@[0]);
                assert("return_statement"@[0] != "declaration"@[0]);
                assert("return_statement"@[0] != "preproc_def"@[0]);
            } else {
                assert("assignment_expression"@[0] != "parameter_declaration"@[0]);
                assert("assignment_expression"@[0] != "declaration"@[0]);
                assert("assignment_expression"@[0] != "preproc_def"@[0]);
            }
        }
    } else {
        assert("init_declarator"@[0] != "function_declarator"@[0]);
        assert("init_declarator"@[0] != "preproc_function_def"@[0]);
    }
}

/// An identifier lies among the references of the definition it resolves
/// to whenever it lies in that definition's scope.
pub proof fn lemma_use_among_references(t: SyntaxTree, cur: int)
    requires
        t.wf(),
        0 <= cur < t.len(),
        t.kind(cur) == "identifier"@,
        resolve_spec(t, cur) is Some,
        t.in_subtree(reference_scope_spec(t, resolve_spec(t, cur).unwrap()), cur),
    ensures
        variable_references_spec(t, resolve_spec(t, cur).unwrap()).contains(cur),
{
    let d = resolve_spec(t, cur).unwrap();
    lemma_resolved_definition(t, cur);
    lemma_references_exact(t, d, cur);
}

/// The references of a variable come in source order, each once.
pub proof fn lemma_references_ordered(t: SyntaxTree, d: int)
    requires
        t.wf(),
        0 <= d < t.len(),
    ensures
        forall|i: int, j: int|
            0 <= i < j < variable_references_spec(t, d).len() ==> variable_references_spec(t, d)[i]
                < variable_references_spec(t, d)[j],
{
    if plain_name(t.text_bytes(d)) {
        let s = reference_scope_spec(t, d);
        lemma_collect_increasing(s, t.node(s).subtree_end as int, refers_to(t, d));
    }
}

/// The calls of a function are exactly the identifiers of its name held by
/// a `call_expression`, anywhere in the file.
pub proof fn lemma_function_references_exact(t: SyntaxTree, name: Seq<u8>, k: int)
    requires
        t.wf(),
    ensures
        function_references_spec(t, name).contains(k) <==> (plain_name(name) && 0 <= k < t.len()
            && calls(t, name)(k)),
{
    if plain_name(name) {
        lemma_collect_contains(0, t.len() as int, calls(t, name), k);
    }
}

/// The scope of a definition is the definition itself or one of its
/// ancestors, and when it is a proper ancestor it bounds a scope.
pub proof fn lemma_reference_scope(t: SyntaxTree, d: int)
    requires
        t.wf(),
        0 <= d < t.len(),
    ensures
        ancestor_or_self(t, reference_scope_spec(t, d), d),
        0 <= reference_scope_spec(t, d) < t.len(),
        reference_scope_spec(t, d) != d ==> is_scope_kind(t.kind(reference_scope_spec(t, d))),
{
    assert(node_ok(t.bytes(), t.nodes_spec(), d));
    match t.node(d).parent {
        Some(p) => {
            lemma_scope_from(t, p as int, d);
            assert(ancestor_or_self(t, d, d));
        },
        None => {},
    }
}

/// When the root bounds a scope, as a file's `translation_unit` does, the
/// scope in which the references of a definition other than the root are
/// searched is a proper ancestor of the definition that bounds a scope.
pub proof fn lemma_scope_proper_ancestor(t: SyntaxTree, d: int)
    requires
        t.wf(),
        0 < d < t.len(),
        is_scope_kind(t.kind(0)),
    ensures
        reference_scope_spec(t, d) != d,
        reference_scope_spec(t, d) < d,
        ancestor_or_self(t, reference_scope_spec(t, d), d),
        is_scope_kind(t.kind(reference_scope_spec(t, d))),
{
    assert(node_ok(t.bytes(), t.nodes_spec(), d));
    let p = t.node(d).parent.unwrap();
    lemma_scope_from(t, p as int, d);
    lemma_scope_below(t, p as int, d);
}

/// Walking up from a node below `d` to a scope stops at or before that node.
proof fn lemma_scope_below(t: SyntaxTree, a: int, d: int)
    requires
        t.wf(),
        0 <= a < d < t.len(),
        is_scope_kind(t.kind(0)),
    ensures
        scope_from(t, a, d) <= a,
    decreases a,
{
    assert(node_ok(t.bytes(), t.nodes_spec(), a));
    if !is_scope_kind(t.kind(a)) {
        assert(a != 0);
        let p = t.node(a).parent.unwrap();
        lemma_scope_below(t, p as int, d);
    }
}

proof fn lemma_scope_from(t: SyntaxTree, a: int, d: int)
    requires
        t.wf(),
        0 <= a < d < t.len(),
        t.node(d).parent matches Some(q) && q == a,
    ensures
        0 <= scope_from(t, a, d) < t.len(),
        ancestor_or_self(t, scope_from(t, a, d), d),
        scope_from(t, a, d) != d ==> is_scope_kind(t.kind(scope_from(t, a, d))),
{
    assert(ancestor_or_self(t, a, a));
    assert(ancestor_or_self(t, a, d));
    lemma_scope_from_inner(t, a, d);
}

proof fn lemma_scope_from_inner(t: SyntaxTree, a: int, d: int)
    requires
        t.wf(),
        0 <= a < t.len(),
        0 <= d < t.len(),
        ancestor_or_self(t, a, d),
    ensures
        0 <= scope_from(t, a, d) < t.len(),
        ancestor_or_self(t, scope_from(t, a, d), d),
        scope_from(t, a, d) != d ==> is_scope_kind(t.kind(scope_from(t, a, d))),
    decreases a,
{
    assert(node_ok(t.bytes(), t.nodes_spec(), a));
    if !is_scope_kind(t.kind(a)) {
        match t.node(a).parent {
            Some(p) => {
                if p < a {
                    lemma_ancestor_step(t, a, d);
                    lemma_scope_from_inner(t, p as int, d);
                }
            },
            None => {},
        }
    }
}

/// The parent of an ancestor of `x` is also an ancestor of `x`.
proof fn lemma_ancestor_step(t: SyntaxTree, a: int, x: int)
    requires
        t.wf(),
        0 <= a < t.len(),
        0 <= x < t.len(),
        ancestor_or_self(t, a, x),
        t.node(a).parent is Some,
    ensures
        ancestor_or_self(t, t.node(a).parent.unwrap() as int, x),
    decreases x,
{
    assert(node_ok(t.bytes(), t.nodes_spec(), x));
    if a != x {
        let p = t.node(x).parent.unwrap();
        assert(node_ok(t.bytes(), t.nodes_spec(), p as int));
        lemma_ancestor_step(t, a, p as int);
    } else {
        let q = t.node(a).parent.unwrap();
        assert(ancestor_or_self(t, q as int, q as int));
    }
}

/// Whether every byte of `name` may stand in a searched name.
pub fn is_plain_name(name: &[u8]) -> (r: bool)
    ensures
        r == plain_name(name@),
{
    let mut i: usize = 0;
    while i < name.len()
        invariant
            i <= name@.len(),
            forall|k: int| 0 <= k < i ==> #[trigger] is_name_byte(name@[k]),
        decreases name@.len() - i,
    {
        let b = name[i];
        if !((0x30 <= b && b <= 0x39) || (0x41 <= b && b <= 0x5a) || (0x61 <= b && b <= 0x7a) || b
            == 0x5f || b >= 0x80) {
            assert(!is_name_byte(name@[i as int]));
            return false;
        }
        i = i + 1;
    }
    true
}

/// The query that finds the calls of the function `name`.
pub open spec fn function_ref_pattern_spec(name: Seq<char>) -> Seq<char> {
    r#"((call_expression(identifier) @call)(#match? @call "^"#@ + name + r#"$"))"#@
}

/// The query that finds the identifiers that declare a variable `name`.
pub open spec fn variable_def_pattern_spec(name: Seq<char>) -> Seq<char> {
    r#"[
        (init_declarator
            declarator: (identifier) @variable)

        (parameter_declaration
            declarator: (identifier) @variable)

        (declaration
            declarator: (identifier) @variable)

        (preproc_def
            name: (identifier) @variable)

        (#match? @variable "^"#@ + name + r#"$")]"#@
}

/// The query that finds the identifiers `name`.
pub open spec fn variable_ref_pattern_spec(name: Seq<char>) -> Seq<char> {
    r#"((identifier) @variable_ref (#match? @variable_ref "^"#@ + name + r#"$"))"#@
}

/// Builds the query that finds the calls of the function `name`.
pub fn function_ref_pattern(name: &str) -> (r: String)
    ensures
        r@ == function_ref_pattern_spec(name@),
{
    let mut pattern = String::new();
    pattern.append(r#"((call_expression(identifier) @call)(#match? @call "^"#);
    pattern.append(name);
    pattern.append(r#"$"))"#);
    pattern
}

/// Builds the query that finds the identifiers that declare a variable `name`.
pub fn variable_def_pattern(name: &str) -> (r: String)
    ensures
        r@ == variable_def_pattern_spec(name@),
{
    let mut pattern = String::new();
    pattern.append(r#"[
        (init_declarator
            declarator: (identifier) @variable)

        (parameter_declaration
            declarator: (identifier) @variable)

        (declaration
            declarator: (identifier) @variable)

        (preproc_def
            name: (identifier) @variable)

        (#match? @variable "^"#);
    pattern.append(name);
    pattern.append(r#"$")]"#);
    pattern
}

/// Builds the query that finds the identifiers `name`.
pub fn variable_ref_pattern(name: &str) -> (r: String)
    ensures
        r@ == variable_ref_pattern_spec(name@),
{
    let mut pattern = String::new();
    pattern.append(r#"((identifier) @variable_ref (#match? @variable_ref "^"#);
    pattern.append(name);
    pattern.append(r#"$"))"#);
    pattern
}

impl TreeParser {
    /// The bytes of the source that node `i` covers.
    fn name_bytes(tree: &SyntaxTree, i: usize) -> (r: &[u8])
        requires
            tree.wf(),
            i < tree.len(),
        ensures
            r@ == tree.text_bytes(i as int),
    {
        tree.node_text(i).as_bytes()
    }

    /// Whether node `j` declares a variable named `name`.
    fn declares_name(tree: &SyntaxTree, j: usize, name: &[u8]) -> (r: bool)
        requires
            tree.wf(),
            j < tree.len(),
        ensures
            r == declares(*tree, j as int, name@),
    {
        let node = tree.get(j);
        if !str_eq(node.kind.as_str(), "identifier") {
            return false;
        }
        let p = match node.parent {
            Some(p) => p,
            None => return false,
        };
        assert(node_ok(tree.bytes(), tree.nodes_spec(), j as int));
        let pk = tree.get(p).kind.as_str();
        let field = match &node.field {
            Some(f) => f.as_str(),
            None => return false,
        };
        let field_matches = if str_eq(pk, "init_declarator") || str_eq(pk, "parameter_declaration")
            || str_eq(pk, "declaration") {
            str_eq(field, "declarator")
        } else if str_eq(pk, "preproc_def") {
            str_eq(field, "name")
        } else {
            false
        };
        field_matches && bytes_eq(Self::name_bytes(tree, j), name)
    }

    /// The last definition of `name` that a search in the subtree of
    /// `scope`, bounded by `limit`, finds.
    fn last_definition(tree: &SyntaxTree, scope: usize, name: &[u8], limit: usize) -> (r: Option<
        usize,
    >)
        requires
            tree.wf(),
            scope < tree.len(),
        ensures
            r is Some <==> last_definition_in(*tree, scope as int, name@, limit as int) is Some,
            r matches Some(j) ==> last_definition_in(*tree, scope as int, name@, limit as int)
                == Some(j as int) && j < tree.len(),
    {
        let ghost p = definition_in(*tree, scope as int, name@, limit as int);
        assert(node_ok(tree.bytes(), tree.nodes_spec(), scope as int));
        let end = tree.get(scope).subtree_end;
        let mut k = end;
        while k > scope
            invariant
                tree.wf(),
                scope < k <= end || k == scope,
                end == tree.node(scope as int).subtree_end,
                end <= tree.len(),
                p == definition_in(*tree, scope as int, name@, limit as int),
                last_where(scope as int, end as int, p) == last_where(scope as int, k as int, p),
            decreases k,
        {
            let j = k - 1;
            if Self::declares_name(tree, j, name) {
                let node = tree.get(j);
                let parent = node.parent.unwrap();
                if scope <= parent && parent < end && node.end_byte > 0 && (limit == 0
                    || node.start_byte < limit) {
                    assert(p(j as int));
                    return Some(j);
                }
            }
            k = j;
        }
        None
    }

    /// Finds the definition of the variable that node `start` names: the
    /// last one declared before its end in the subtree of `start`, else in
    /// that of its parent, and so on up to the root.
    pub fn resolve_variable_definition(tree: &SyntaxTree, start: usize) -> (r: Option<usize>)
        requires
            tree.wf(),
            start < tree.len(),
        ensures
            r is Some <==> resolve_spec(*tree, start as int) is Some,
            r matches Some(j) ==> resolve_spec(*tree, start as int) == Some(j as int) && j
                < tree.len(),
    {
        let name = Self::name_bytes(tree, start);
        if !is_plain_name(name) {
            return None;
        }
        let limit = tree.get(start).end_byte;
        let mut a = start;
        loop
            invariant
                tree.wf(),
                a < tree.len(),
                name@ == tree.text_bytes(start as int),
                plain_name(name@),
                limit == tree.node(start as int).end_byte,
                resolve_from(*tree, start as int, name@, limit as int) == resolve_from(
                    *tree,
                    a as int,
                    name@,
                    limit as int,
                ),
            decreases a,
        {
            if let Some(j) = Self::last_definition(tree, a, name, limit) {
                assert(resolve_from(*tree, a as int, name@, limit as int) == Some(j as int));
                return Some(j);
            }
            assert(node_ok(tree.bytes(), tree.nodes_spec(), a as int));
            match tree.get(a).parent {
                Some(p) => {
                    a = p;
                },
                None => return None,
            }
        }
    }

    /// The scope in which the references of definition `definition` are
    /// searched.
    pub fn variable_reference_scope(tree: &SyntaxTree, definition: usize) -> (r: usize)
        requires
            tree.wf(),
            definition < tree.len(),
        ensures
            r == reference_scope_spec(*tree, definition as int),
            r < tree.len(),
    {
        assert(node_ok(tree.bytes(), tree.nodes_spec(), definition as int));
        let mut a = match tree.get(definition).parent {
            Some(p) => p,
            None => return definition,
        };
        loop
            invariant
                tree.wf(),
                definition < tree.len(),
                a < tree.len(),
                reference_scope_spec(*tree, definition as int) == scope_from(
                    *tree,
                    a as int,
                    definition as int,
                ),
            decreases a,
        {
            let node = tree.get(a);
            let kind = node.kind.as_str();
            if str_eq(kind, "compound_statement") || str_eq(kind, "function_definition") || str_eq(
                kind,
                "preproc_function_def",
            ) || str_eq(kind, "translation_unit") {
                return a;
            }
            assert(node_ok(tree.bytes(), tree.nodes_spec(), a as int));
            match node.parent {
                Some(p) => {
                    a = p;
                },
                None => return definition,
            }
        }
    }

    /// Whether two nodes cover the same range of the source.
    fn same_range_exec(a: &SyntaxNode, b: &SyntaxNode) -> (r: bool)
        ensures
            r == same_range(*a, *b),
    {
        a.start_byte == b.start_byte && a.end_byte == b.end_byte && a.start_point == b.start_point
            && a.end_point == b.end_point
    }

    /// Whether node `j` is an identifier whose source is `name`.
    fn is_identifier_named(tree: &SyntaxTree, j: usize, name: &[u8]) -> (r: bool)
        requires
            tree.wf(),
            j < tree.len(),
        ensures
            r == (tree.kind(j as int) == "identifier"@ && tree.text_bytes(j as int) == name@),
    {
        str_eq(tree.get(j).kind.as_str(), "identifier") && bytes_eq(Self::name_bytes(tree, j), name)
    }

    /// The references of the variable defined by node `definition`, in
    /// source order.
    pub fn find_variable_references(tree: &SyntaxTree, definition: usize) -> (r: Vec<usize>)
        requires
            tree.wf(),
            definition < tree.len(),
        ensures
            as_ints(r@) == variable_references_spec(*tree, definition as int),
            forall|i: int| 0 <= i < r@.len() ==> r@[i] < tree.len(),
    {
        let name = Self::name_bytes(tree, definition);
        if !is_plain_name(name) {
            let r: Vec<usize> = Vec::new();
            assert(as_ints(r@) =~= Seq::<int>::empty());
            return r;
        }
        let scope = Self::variable_reference_scope(tree, definition);
        assert(node_ok(tree.bytes(), tree.nodes_spec(), scope as int));
        let end = tree.get(scope).subtree_end;
        let d = tree.get(definition);
        let ghost p = refers_to(*tree, definition as int);
        let mut out: Vec<usize> = Vec::new();
        let mut j = scope;
        assert(as_ints(out@) =~= collect(scope as int, j as int, p));
        while j < end
            invariant
                tree.wf(),
                definition < tree.len(),
                *d == tree.node(definition as int),
                name@ == tree.text_bytes(definition as int),
                scope <= j <= end,
                end <= tree.len(),
                p == refers_to(*tree, definition as int),
                as_ints(out@) == collect(scope as int, j as int, p),
                forall|i: int| 0 <= i < out@.len() ==> out@[i] < tree.len(),
            decreases end - j,
        {
            let mut keep = false;
            if Self::is_identifier_named(tree, j, name) {
                match Self::resolve_variable_definition(tree, j) {
                    Some(k) => {
                        keep = Self::same_range_exec(tree.get(k), d);
                    },
                    None => {},
                }
            }
            assert(keep == p(j as int));
            if keep {
                out.push(j);
            }
            assert(as_ints(out@) =~= collect(scope as int, j + 1, p));
            j = j + 1;
        }
        out
    }

    /// The calls of the function named `name`, in source order.
    pub fn function_references(tree: &SyntaxTree, name: &[u8]) -> (r: Vec<usize>)
        requires
            tree.wf(),
        ensures
            as_ints(r@) == function_references_spec(*tree, name@),
            forall|i: int| 0 <= i < r@.len() ==> r@[i] < tree.len(),
    {
        if !is_plain_name(name) {
            let r: Vec<usize> = Vec::new();
            assert(as_ints(r@) =~= Seq::<int>::empty());
            return r;
        }
        let n = tree.node_count();
        let ghost p = calls(*tree, name@);
        let mut out: Vec<usize> = Vec::new();
        let mut j: usize = 0;
        assert(as_ints(out@) =~= collect(0, 0, p));
        while j < n
            invariant
                tree.wf(),
                n == tree.len(),
                j <= n,
                p == calls(*tree, name@),
                as_ints(out@) == collect(0, j as int, p),
                forall|i: int| 0 <= i < out@.len() ==> out@[i] < tree.len(),
            decreases n - j,
        {
            let mut keep = false;
            if Self::is_identifier_named(tree, j, name) {
                assert(node_ok(tree.bytes(), tree.nodes_spec(), j as int));
                match tree.get(j).parent {
                    Some(p) => {
                        keep = str_eq(tree.get(p).kind.as_str(), "call_expression");
                    },
                    None => {},
                }
            }
            assert(keep == p(j as int));
            if keep {
                out.push(j);
            }
            assert(as_ints(out@) =~= collect(0, j + 1, p));
            j = j + 1;
        }
        out
    }

    /// The references of the name at node `cur`.
    pub fn find_references_node(tree: &SyntaxTree, cur: usize) -> (r: Option<Vec<usize>>)
        requires
            tree.wf(),
            cur < tree.len(),
        ensures
            r is Some <==> find_references_spec(*tree, cur as int) is Some,
            r matches Some(v) ==> Some(as_ints(v@)) == find_references_spec(*tree, cur as int)
                && forall|i: int| 0 <= i < v@.len() ==> v@[i] < tree.len(),
    {
        let node = tree.get(cur);
        let p = match node.parent {
            Some(p) => p,
            None => return None,
        };
        assert(node_ok(tree.bytes(), tree.nodes_spec(), cur as int));
        let pk = tree.get(p).kind.as_str();
        let is_identifier = str_eq(node.kind.as_str(), "identifier");
        if str_eq(pk, "function_declarator") || str_eq(pk, "preproc_function_def") {
            Some(Self::function_references(tree, Self::name_bytes(tree, cur)))
        } else if is_identifier && (str_eq(pk, "parameter_declaration") || str_eq(pk, "declaration")
            || str_eq(pk, "init_declarator") || str_eq(pk, "preproc_def")) {
            let definition = if str_eq(pk, "init_declarator") && node.sibling_index > 0 {
                match Self::resolve_variable_definition(tree, cur) {
                    Some(d) => d,
                    None => return None,
                }
            } else {
                cur
            };
            Some(Self::find_variable_references(tree, definition))
        } else if is_identifier && (str_eq(pk, "argument_list") || str_eq(pk, "field_expression")
            || str_eq(pk, "binary_expression") || str_eq(pk, "return_statement") || str_eq(
            pk,
            "assignment_expression",
        )) {
            let definition = match Self::resolve_variable_definition(tree, cur) {
                Some(d) => d,
                None => return None,
            };
            Some(Self::find_variable_references(tree, definition))
        } else {
            None
        }
    }

    /// The references of the name under the cursor at an editor position.
    pub fn find_references(position: Position, tree: &SyntaxTree, line_mapping: &Vec<usize>) -> (r: Option<Vec<usize>>)
        requires
            tree.wf(),
            as_ints(line_mapping@) == line_starts_spec(tree.bytes()),
        ensures
            r is Some <==> (current_node_spec(*tree, position) matches Some(cur)
                && find_references_spec(*tree, cur) is Some),
            r matches Some(v) ==> (current_node_spec(*tree, position) matches Some(cur)
                && Some(as_ints(v@)) == find_references_spec(*tree, cur)),
    {
        let cur = match Self::current_node_fetch(position, tree, line_mapping) {
            Some(c) => c,
            None => return None,
        };
        Self::find_references_node(tree, cur)
    }
}

} // verus!
