//! Executable shape checking: decides, for a whole subtree, exactly the
//! well-shapedness the walk's preconditions demand, so a host that obtained
//! a tree from an outside parser can test before analyzing and fail
//! deliberately instead of relying on an unchecked assumption.

use vstd::prelude::*;

use crate::ast_helpers::{scoped_shape_ok, type_shape_ok};
use crate::definition::{item_vis_ok, vis_modifier_ok};
use crate::path::{simple_path_ok, SimplePath};
use crate::scope_analyzer::{shape_ok, subtree_ok, use_clause_ok, use_list_ok};
use crate::tree::{
    child_ok, lemma_child_by_field_range, lemma_first_named_child_range, node_ok, FieldName,
    SyntaxKind, SyntaxTree,
};

verus! {

/// Decides [`simple_path_ok`]: every scoped segment carries its `path` and
/// `name` fields.
pub fn check_simple_path(t: &SyntaxTree, n: usize) -> (r: bool)
    requires
        t.wf(),
        n < t@.len(),
    ensures
        r == simple_path_ok(t@, n as int),
    decreases t@.len() - n,
{
    if t.kind(n) != SyntaxKind::ScopedIdentifier {
        return true;
    }
    let path = match t.child_by_field(n, FieldName::Path) {
        Some(path) => path,
        None => {
            return false;
        },
    };
    if t.child_by_field(n, FieldName::Name).is_none() {
        return false;
    }
    proof {
        lemma_child_by_field_range(t@, n as int, FieldName::Path);
    }
    match t.kind(path) {
        SyntaxKind::BracketedType | SyntaxKind::GenericType => true,
        _ => check_simple_path(t, path),
    }
}

/// Decides [`vis_modifier_ok`]: the token shape of a visibility modifier.
pub fn check_vis_modifier(t: &SyntaxTree, v: usize) -> (r: bool)
    requires
        t.wf(),
        v < t@.len(),
    ensures
        r == vis_modifier_ok(t@, v as int),
{
    proof {
        assert(node_ok(t@, v as int));
        assert forall|k: int| 0 <= k < t@[v as int].children@.len() implies #[trigger] t@[v as int].children@[k]
            < t@.len() by {
            assert(child_ok(t@, v as int, k));
        }
    }
    let cs = t.children_of(v);
    if cs.len() < 1 {
        return false;
    }
    proof {
        assert(child_ok(t@, v as int, 0));
    }
    if t.kind(cs[0]) != SyntaxKind::Pub {
        return false;
    }
    if cs.len() < 2 {
        return true;
    }
    proof {
        assert(child_ok(t@, v as int, 1));
    }
    if t.kind(cs[1]) != SyntaxKind::LParen {
        return false;
    }
    if cs.len() < 3 {
        return false;
    }
    proof {
        assert(child_ok(t@, v as int, 2));
    }
    match t.kind(cs[2]) {
        SyntaxKind::Self_ | SyntaxKind::Super | SyntaxKind::Crate => true,
        SyntaxKind::In => {
            if cs.len() < 4 {
                return false;
            }
            proof {
                assert(child_ok(t@, v as int, 3));
            }
            let path_node = cs[3];
            if !check_simple_path(t, path_node) {
                return false;
            }
            SimplePath::from_node(t, path_node).is_some()
        },
        _ => false,
    }
}

/// Decides [`item_vis_ok`]: a declaration's leading visibility modifier,
/// where one stands, is well shaped.
pub fn check_item_vis(t: &SyntaxTree, n: usize) -> (r: bool)
    requires
        t.wf(),
        n < t@.len(),
    ensures
        r == item_vis_ok(t@, n as int),
{
    match t.first_named_child(n) {
        Some(c) => {
            proof {
                lemma_first_named_child_range(t@, n as int);
            }
            if t.kind(c) == SyntaxKind::VisibilityModifier {
                check_vis_modifier(t, c)
            } else {
                true
            }
        },
        None => true,
    }
}

/// Decides [`scoped_shape_ok`]: the prefixes a leading-name descent steps
/// through all carry the fields it reads.
pub fn check_scoped_shape(t: &SyntaxTree, n: usize) -> (r: bool)
    requires
        t.wf(),
        n < t@.len(),
    ensures
        r == scoped_shape_ok(t@, n as int),
    decreases t@.len() - n, 0int,
{
    let path = match t.child_by_field(n, FieldName::Path) {
        Some(path) => path,
        None => {
            return true;
        },
    };
    proof {
        lemma_child_by_field_range(t@, n as int, FieldName::Path);
    }
    match t.kind(path) {
        SyntaxKind::ScopedIdentifier => check_scoped_shape(t, path),
        SyntaxKind::BracketedType => {
            let bracketed = match t.first_named_child(path) {
                Some(b) => b,
                None => {
                    return false;
                },
            };
            proof {
                lemma_first_named_child_range(t@, path as int);
            }
            if t.kind(bracketed) == SyntaxKind::QualifiedType {
                match t.child_by_field(bracketed, FieldName::Ty) {
                    Some(ty) => {
                        proof {
                            lemma_child_by_field_range(t@, bracketed as int, FieldName::Ty);
                        }
                        check_type_shape(t, ty)
                    },
                    None => false,
                }
            } else {
                check_type_shape(t, bracketed)
            }
        },
        SyntaxKind::GenericType => {
            match t.child_by_field(path, FieldName::Ty) {
                Some(ty) => {
                    proof {
                        lemma_child_by_field_range(t@, path as int, FieldName::Ty);
                    }
                    check_type_shape(t, ty)
                },
                None => false,
            }
        },
        _ => true,
    }
}

/// Decides [`type_shape_ok`].
pub fn check_type_shape(t: &SyntaxTree, n: usize) -> (r: bool)
    requires
        t.wf(),
        n < t@.len(),
    ensures
        r == type_shape_ok(t@, n as int),
    decreases t@.len() - n, 1int,
{
    if t.kind(n) == SyntaxKind::ScopedTypeIdentifier {
        check_scoped_shape(t, n)
    } else {
        true
    }
}

/// Decides [`use_clause_ok`]: every leaf of an import clause carries the
/// field its kind promises, and no foreign node kind stands in clause
/// position.
pub fn check_use_clause(t: &SyntaxTree, c: usize) -> (r: bool)
    requires
        t.wf(),
        c < t@.len(),
    ensures
        r == use_clause_ok(t@, c as int),
    decreases t@.len() - c, 1int,
{
    match t.kind(c) {
        SyntaxKind::Identifier => true,
        SyntaxKind::Self_ => {
            if c == 0 {
                return false;
            }
            proof {
                assert(node_ok(t@, c as int));
            }
            let par = t.parent_of(c).unwrap();
            if t.kind(par) != SyntaxKind::UseList {
                return true;
            }
            if par == 0 {
                return false;
            }
            proof {
                assert(node_ok(t@, par as int));
            }
            let pp = t.parent_of(par).unwrap();
            if t.kind(pp) != SyntaxKind::ScopedUseList {
                return true;
            }
            let path = match t.child_by_field(pp, FieldName::Path) {
                Some(path) => path,
                None => {
                    return true;
                },
            };
            proof {
                lemma_child_by_field_range(t@, pp as int, FieldName::Path);
            }
            if t.kind(path) == SyntaxKind::Identifier {
                true
            } else if t.kind(path) == SyntaxKind::ScopedIdentifier {
                t.child_by_field(path, FieldName::Name).is_some()
            } else {
                false
            }
        },
        SyntaxKind::ScopedIdentifier => t.child_by_field(c, FieldName::Name).is_some(),
        SyntaxKind::UseAsClause => t.child_by_field(c, FieldName::Alias).is_some(),
        SyntaxKind::UseList => check_use_list(t, c),
        SyntaxKind::ScopedUseList => {
            match t.child_by_field(c, FieldName::List) {
                Some(list) => {
                    proof {
                        lemma_child_by_field_range(t@, c as int, FieldName::List);
                    }
                    check_use_list(t, list)
                },
                None => false,
            }
        },
        SyntaxKind::UseWildcard => true,
        _ => false,
    }
}

/// Decides [`use_list_ok`] over a whole braced list.
pub fn check_use_list(t: &SyntaxTree, d: usize) -> (r: bool)
    requires
        t.wf(),
        d < t@.len(),
    ensures
        r == use_list_ok(t@, d as int, 0),
    decreases t@.len() - d, 0int,
{
    let num_children = t.children_of(d).len();
    let mut k: usize = 0;
    while k < num_children
        invariant
            t.wf(),
            d < t@.len(),
            num_children == t@[d as int].children@.len(),
            k <= num_children,
            use_list_ok(t@, d as int, 0) == use_list_ok(t@, d as int, k as int),
        decreases num_children - k,
    {
        proof {
            assert(node_ok(t@, d as int));
            assert(child_ok(t@, d as int, k as int));
        }
        let c = t.children_of(d)[k];
        if t.is_named(c) {
            if !check_use_clause(t, c) {
                proof {
                    assert(!use_list_ok(t@, d as int, k as int));
                }
                return false;
            }
        }
        k = k + 1;
    }
    true
}

/// Decides [`shape_ok`]: one node carries the fields the walk's dispatch
/// will read from it.
pub fn check_shape(t: &SyntaxTree, n: usize) -> (r: bool)
    requires
        t.wf(),
        n < t@.len(),
    ensures
        r == shape_ok(t@, n as int),
{
    match t.kind(n) {
        SyntaxKind::StructItem
        | SyntaxKind::ModItem
        | SyntaxKind::FunctionItem
        | SyntaxKind::TypeItem
        | SyntaxKind::UnionItem
        | SyntaxKind::EnumItem
        | SyntaxKind::ConstItem
        | SyntaxKind::StaticItem
        | SyntaxKind::TraitItem
        | SyntaxKind::ExternCrateDeclaration => {
            if t.child_by_field(n, FieldName::Name).is_none() {
                return false;
            }
            check_item_vis(t, n)
        },
        SyntaxKind::MacroDefinition => t.child_by_field(n, FieldName::Name).is_some(),
        SyntaxKind::UseDeclaration => {
            let arg = match t.child_by_field(n, FieldName::Argument) {
                Some(arg) => arg,
                None => {
                    return false;
                },
            };
            proof {
                lemma_child_by_field_range(t@, n as int, FieldName::Argument);
            }
            if !check_use_clause(t, arg) {
                return false;
            }
            check_item_vis(t, n)
        },
        SyntaxKind::LetDeclaration => t.child_by_field(n, FieldName::Pattern).is_some(),
        SyntaxKind::ScopedIdentifier | SyntaxKind::ScopedTypeIdentifier => check_scoped_shape(
            t,
            n,
        ),
        SyntaxKind::Identifier => {
            if n == 0 {
                return false;
            }
            proof {
                assert(node_ok(t@, n as int));
            }
            let p = t.parent_of(n).unwrap();
            if t.kind(p) == SyntaxKind::EnumVariant {
                t.child_by_field(p, FieldName::Name).is_some()
            } else {
                true
            }
        },
        _ => true,
    }
}

/// Decides [`subtree_ok`] for a whole subtree: every node below `n` is well
/// shaped and none reopens a whole source unit. A host that converts an
/// outside parser's tree can test this before analysis and reject the unit
/// deliberately where the tree does not have the shape the grammar promises.
pub fn check_subtree(t: &SyntaxTree, n: usize) -> (r: bool)
    requires
        t.wf(),
        n < t@.len(),
    ensures
        r == subtree_ok(t@, n as int),
    decreases t@.len() - n,
{
    if !check_shape(t, n) {
        proof {
            assert(!subtree_ok(t@, n as int));
        }
        return false;
    }
    let num_children = t.children_of(n).len();
    let mut k: usize = 0;
    while k < num_children
        invariant
            t.wf(),
            n < t@.len(),
            num_children == t@[n as int].children@.len(),
            k <= num_children,
            shape_ok(t@, n as int),
            forall|j: int|
                0 <= j < k ==> ({
                    let c = (#[trigger] t@[n as int].children@[j]) as int;
                    t@[c].kind != SyntaxKind::SourceFile && subtree_ok(t@, c)
                }),
        decreases num_children - k,
    {
        proof {
            assert(node_ok(t@, n as int));
            assert(child_ok(t@, n as int, k as int));
        }
        let c = t.children_of(n)[k];
        if t.kind(c) == SyntaxKind::SourceFile {
            proof {
                if subtree_ok(t@, n as int) {
                    assert(t@[t@[n as int].children@[k as int] as int].kind
                        != SyntaxKind::SourceFile);
                }
            }
            return false;
        }
        if !check_subtree(t, c) {
            proof {
                if subtree_ok(t@, n as int) {
                    assert(subtree_ok(t@, t@[n as int].children@[k as int] as int));
                }
            }
            return false;
        }
        k = k + 1;
    }
    proof {
        assert forall|j: int| 0 <= j < t@[n as int].children@.len() implies ({
            let c = (#[trigger] t@[n as int].children@[j]) as int;
            n < c < t@.len() && t@[c].kind != SyntaxKind::SourceFile && subtree_ok(t@, c)
        }) by {
            assert(node_ok(t@, n as int));
            assert(child_ok(t@, n as int, j));
        }
        assert(subtree_ok(t@, n as int));
    }
    true
}

} // verus!
