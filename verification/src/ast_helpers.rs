//! Helpers that classify syntax nodes by their surroundings: discard names,
//! plain identifiers, enum-variant name positions, attribute and macro name
//! positions, and the leading name of a scoped path.

use vstd::prelude::*;

use crate::tree::{
    lemma_child_by_field_range, lemma_first_named_child_range, node_ok, spec_child_by_field,
    spec_first_named_child, tree_wf, FieldName, SyntaxKind, SyntaxNode, SyntaxTree,
};

verus! {

/// Whether node `n` spells the placeholder "discard" name, a single
/// underscore. Such bindings are never resolvable and never shadow anything.
pub open spec fn is_discard(ns: Seq<SyntaxNode>, n: int) -> bool {
    ns[n].text@ == "_"@
}

/// Whether node `n` spells the placeholder "discard" name.
pub fn is_underscore(t: &SyntaxTree, n: usize) -> (r: bool)
    requires
        n < t@.len(),
    ensures
        r == is_discard(t@, n as int),
{
    let underscore: String = "_".to_owned();
    *t.text(n) == underscore
}

/// Whether node `n` is an identifier that does not serve as a segment of an
/// enclosing scoped identifier.
pub open spec fn spec_is_simple_identifier(ns: Seq<SyntaxNode>, n: int) -> bool {
    &&& ns[n].kind == SyntaxKind::Identifier
    &&& ns[ns[n].parent as int].kind != SyntaxKind::ScopedIdentifier
}

/// Whether node `n` is an identifier that stands on its own, not as a segment
/// of an enclosing scoped identifier.
pub fn is_simple_identifier(t: &SyntaxTree, n: usize) -> (r: bool)
    requires
        t.wf(),
        0 < n < t@.len(),
    ensures
        r == spec_is_simple_identifier(t@, n as int),
{
    proof {
        assert(node_ok(t@, n as int));
    }
    if t.kind(n) != SyntaxKind::Identifier {
        return false;
    }
    let p = t.parent_of(n).unwrap();
    t.kind(p) != SyntaxKind::ScopedIdentifier
}

/// Whether node `n` is a type identifier that does not serve as a segment of
/// an enclosing scoped type identifier.
pub open spec fn spec_is_simple_type_identifier(ns: Seq<SyntaxNode>, n: int) -> bool {
    &&& ns[n].kind == SyntaxKind::TypeIdentifier
    &&& ns[ns[n].parent as int].kind != SyntaxKind::ScopedTypeIdentifier
}

/// Whether node `n` is a type identifier that stands on its own, not as a
/// segment of an enclosing scoped type identifier.
pub fn is_simple_type_identifier(t: &SyntaxTree, n: usize) -> (r: bool)
    requires
        t.wf(),
        0 < n < t@.len(),
    ensures
        r == spec_is_simple_type_identifier(t@, n as int),
{
    proof {
        assert(node_ok(t@, n as int));
    }
    if t.kind(n) != SyntaxKind::TypeIdentifier {
        return false;
    }
    let p = t.parent_of(n).unwrap();
    t.kind(p) != SyntaxKind::ScopedTypeIdentifier
}

/// Whether node `n` sits in the declared-name position of an enum variant.
/// Such a name is a declaration site, never a usage.
pub open spec fn spec_is_enum_variant_name(ns: Seq<SyntaxNode>, n: int) -> bool {
    &&& n > 0
    &&& ns[ns[n].parent as int].kind == SyntaxKind::EnumVariant
    &&& spec_child_by_field(ns, ns[n].parent as int, FieldName::Name) == Some(n as usize)
}

/// Whether node `n` sits in the declared-name position of an enum variant.
pub fn is_enum_variant_name(t: &SyntaxTree, n: usize) -> (r: bool)
    requires
        t.wf(),
        0 < n < t@.len(),
        t@[t@[n as int].parent as int].kind == SyntaxKind::EnumVariant ==> spec_child_by_field(
            t@,
            t@[n as int].parent as int,
            FieldName::Name,
        ) is Some,
    ensures
        r == spec_is_enum_variant_name(t@, n as int),
{
    proof {
        assert(node_ok(t@, n as int));
    }
    let p = t.parent_of(n).unwrap();
    if t.kind(p) != SyntaxKind::EnumVariant {
        return false;
    }
    let name = t.child_by_field(p, FieldName::Name).unwrap();
    name == n
}

/// Whether node `n` names an attribute: it, or a scoped path it leads, stands
/// first among the named children of an attribute node.
pub open spec fn spec_is_attribute_name(ns: Seq<SyntaxNode>, n: int) -> bool
    decreases n,
    when tree_wf(ns) && 0 <= n < ns.len()
    via spec_is_attribute_name_decreases
{
    if n == 0 {
        false
    } else {
        let p = ns[n].parent as int;
        match ns[p].kind {
            SyntaxKind::Attribute => spec_first_named_child(ns, p) == Some(n as usize),
            SyntaxKind::Identifier => spec_is_attribute_name(ns, p),
            SyntaxKind::ScopedIdentifier => spec_is_attribute_name(ns, p),
            _ => false,
        }
    }
}

#[via_fn]
proof fn spec_is_attribute_name_decreases(ns: Seq<SyntaxNode>, n: int) {
    if n > 0 {
        assert(node_ok(ns, n));
    }
}

/// Whether node `n` names an attribute.
pub fn is_attribute_name(t: &SyntaxTree, n: usize) -> (r: bool)
    requires
        t.wf(),
        n < t@.len(),
    ensures
        r == spec_is_attribute_name(t@, n as int),
{
    let mut cur = n;
    loop
        invariant
            t.wf(),
            cur < t@.len(),
            spec_is_attribute_name(t@, n as int) == spec_is_attribute_name(t@, cur as int),
        decreases cur,
    {
        if cur == 0 {
            return false;
        }
        proof {
            assert(node_ok(t@, cur as int));
        }
        let p = t.parent_of(cur).unwrap();
        match t.kind(p) {
            SyntaxKind::Attribute => {
                return match t.first_named_child(p) {
                    Some(m) => m == cur,
                    None => false,
                };
            },
            SyntaxKind::Identifier => {
                cur = p;
            },
            SyntaxKind::ScopedIdentifier => {
                cur = p;
            },
            _ => {
                return false;
            },
        }
    }
}

/// Whether node `n` stands in the macro position of a macro invocation.
pub open spec fn spec_is_macro_name(ns: Seq<SyntaxNode>, n: int) -> bool {
    &&& n > 0
    &&& ns[ns[n].parent as int].kind == SyntaxKind::MacroInvocation
    &&& spec_child_by_field(ns, ns[n].parent as int, FieldName::MacroName) == Some(n as usize)
}

/// Whether node `n` stands in the macro position of a macro invocation.
pub fn is_macro_name(t: &SyntaxTree, n: usize) -> (r: bool)
    requires
        t.wf(),
        n < t@.len(),
    ensures
        r == spec_is_macro_name(t@, n as int),
{
    if n == 0 {
        return false;
    }
    proof {
        assert(node_ok(t@, n as int));
    }
    let p = t.parent_of(n).unwrap();
    if t.kind(p) != SyntaxKind::MacroInvocation {
        return false;
    }
    match t.child_by_field(p, FieldName::MacroName) {
        Some(m) => m == n,
        None => false,
    }
}

/// Shape that leading-name extraction expects below a scoped identifier:
/// every bracketed prefix holds a named node, and every qualified or generic
/// prefix carries its `type` field.
pub open spec fn scoped_shape_ok(ns: Seq<SyntaxNode>, n: int) -> bool
    decreases ns.len() - n, 0int,
    when tree_wf(ns) && 0 <= n < ns.len()
    via scoped_shape_ok_decreases
{
    match spec_child_by_field(ns, n, FieldName::Path) {
        Some(path) => {
            let p = path as int;
            match ns[p].kind {
                SyntaxKind::ScopedIdentifier => scoped_shape_ok(ns, p),
                SyntaxKind::BracketedType => {
                    &&& spec_first_named_child(ns, p) is Some
                    &&& {
                        let b = spec_first_named_child(ns, p)->Some_0 as int;
                        if ns[b].kind == SyntaxKind::QualifiedType {
                            &&& spec_child_by_field(ns, b, FieldName::Ty) is Some
                            &&& type_shape_ok(
                                ns,
                                spec_child_by_field(ns, b, FieldName::Ty)->Some_0 as int,
                            )
                        } else {
                            type_shape_ok(ns, b)
                        }
                    }
                },
                SyntaxKind::GenericType => {
                    &&& spec_child_by_field(ns, p, FieldName::Ty) is Some
                    &&& type_shape_ok(ns, spec_child_by_field(ns, p, FieldName::Ty)->Some_0 as int)
                },
                _ => true,
            }
        },
        None => true,
    }
}

/// Shape that leading-name extraction expects of a type node; see
/// [`scoped_shape_ok`].
pub open spec fn type_shape_ok(ns: Seq<SyntaxNode>, n: int) -> bool
    decreases ns.len() - n, 1int,
    when tree_wf(ns) && 0 <= n < ns.len()
{
    if ns[n].kind == SyntaxKind::ScopedTypeIdentifier {
        scoped_shape_ok(ns, n)
    } else {
        true
    }
}

#[via_fn]
proof fn scoped_shape_ok_decreases(ns: Seq<SyntaxNode>, n: int) {
    match spec_child_by_field(ns, n, FieldName::Path) {
        Some(path) => {
            lemma_child_by_field_range(ns, n, FieldName::Path);
            let p = path as int;
            if ns[p].kind == SyntaxKind::BracketedType {
                if spec_first_named_child(ns, p) is Some {
                    lemma_first_named_child_range(ns, p);
                    let b = spec_first_named_child(ns, p)->Some_0 as int;
                    if ns[b].kind == SyntaxKind::QualifiedType {
                        if spec_child_by_field(ns, b, FieldName::Ty) is Some {
                            lemma_child_by_field_range(ns, b, FieldName::Ty);
                        }
                    }
                }
            }
            if ns[p].kind == SyntaxKind::GenericType {
                if spec_child_by_field(ns, p, FieldName::Ty) is Some {
                    lemma_child_by_field_range(ns, p, FieldName::Ty);
                }
            }
        },
        None => {},
    }
}

/// The leading name node of a scoped identifier or scoped type identifier:
/// the node its resolution should look up, or `None` where the path starts
/// with something that is not a plain name.
pub open spec fn spec_leading_name_of_scoped(ns: Seq<SyntaxNode>, n: int) -> Option<usize>
    decreases ns.len() - n, 0int,
    when tree_wf(ns) && 0 <= n < ns.len()
    via spec_leading_name_of_scoped_decreases
{
    match spec_child_by_field(ns, n, FieldName::Path) {
        Some(path) => {
            let p = path as int;
            match ns[p].kind {
                SyntaxKind::Identifier => Some(path),
                SyntaxKind::ScopedIdentifier => spec_leading_name_of_scoped(ns, p),
                SyntaxKind::BracketedType => {
                    match spec_first_named_child(ns, p) {
                        Some(b) => {
                            if ns[b as int].kind == SyntaxKind::QualifiedType {
                                match spec_child_by_field(ns, b as int, FieldName::Ty) {
                                    Some(ty) => spec_leading_name_of_type(ns, ty as int),
                                    None => None,
                                }
                            } else {
                                spec_leading_name_of_type(ns, b as int)
                            }
                        },
                        None => None,
                    }
                },
                SyntaxKind::GenericType => {
                    match spec_child_by_field(ns, p, FieldName::Ty) {
                        Some(ty) => spec_leading_name_of_type(ns, ty as int),
                        None => None,
                    }
                },
                _ => None,
            }
        },
        None => None,
    }
}

/// The leading name node of a type node; see [`spec_leading_name_of_scoped`].
pub open spec fn spec_leading_name_of_type(ns: Seq<SyntaxNode>, n: int) -> Option<usize>
    decreases ns.len() - n, 1int,
    when tree_wf(ns) && 0 <= n < ns.len()
{
    if ns[n].kind == SyntaxKind::TypeIdentifier {
        Some(n as usize)
    } else if ns[n].kind == SyntaxKind::ScopedTypeIdentifier {
        spec_leading_name_of_scoped(ns, n)
    } else {
        None
    }
}

#[via_fn]
proof fn spec_leading_name_of_scoped_decreases(ns: Seq<SyntaxNode>, n: int) {
    match spec_child_by_field(ns, n, FieldName::Path) {
        Some(path) => {
            lemma_child_by_field_range(ns, n, FieldName::Path);
            let p = path as int;
            if ns[p].kind == SyntaxKind::BracketedType {
                if spec_first_named_child(ns, p) is Some {
                    lemma_first_named_child_range(ns, p);
                    let b = spec_first_named_child(ns, p)->Some_0 as int;
                    if ns[b].kind == SyntaxKind::QualifiedType {
                        if spec_child_by_field(ns, b, FieldName::Ty) is Some {
                            lemma_child_by_field_range(ns, b, FieldName::Ty);
                        }
                    }
                }
            }
            if ns[p].kind == SyntaxKind::GenericType {
                if spec_child_by_field(ns, p, FieldName::Ty) is Some {
                    lemma_child_by_field_range(ns, p, FieldName::Ty);
                }
            }
        },
        None => {},
    }
}

/// The leading name node of a scoped identifier or scoped type identifier,
/// or `None` where the path starts with something that is not a plain name.
pub fn get_leading_name_node_of_scoped_identifier(t: &SyntaxTree, n: usize) -> (r: Option<usize>)
    requires
        t.wf(),
        n < t@.len(),
        t@[n as int].kind == SyntaxKind::ScopedIdentifier || t@[n as int].kind
            == SyntaxKind::ScopedTypeIdentifier,
        scoped_shape_ok(t@, n as int),
    ensures
        r == spec_leading_name_of_scoped(t@, n as int),
        r is Some ==> r->Some_0 < t@.len(),
    decreases t@.len() - n, 0int,
{
    let path = match t.child_by_field(n, FieldName::Path) {
        Some(path) => path,
        None => {
            return None;
        },
    };
    proof {
        lemma_child_by_field_range(t@, n as int, FieldName::Path);
    }
    match t.kind(path) {
        SyntaxKind::Identifier => Some(path),
        SyntaxKind::ScopedIdentifier => get_leading_name_node_of_scoped_identifier(t, path),
        SyntaxKind::BracketedType => {
            let bracketed = t.first_named_child(path).unwrap();
            proof {
                lemma_first_named_child_range(t@, path as int);
            }
            match t.kind(bracketed) {
                SyntaxKind::QualifiedType => {
                    let ty = t.child_by_field(bracketed, FieldName::Ty).unwrap();
                    proof {
                        lemma_child_by_field_range(t@, bracketed as int, FieldName::Ty);
                    }
                    get_leading_name_node_of_type(t, ty)
                },
                _ => get_leading_name_node_of_type(t, bracketed),
            }
        },
        SyntaxKind::GenericType => {
            let ty = t.child_by_field(path, FieldName::Ty).unwrap();
            proof {
                lemma_child_by_field_range(t@, path as int, FieldName::Ty);
            }
            get_leading_name_node_of_type(t, ty)
        },
        _ => None,
    }
}

/// The leading name node of a type node, or `None` where the type is not a
/// plain or scoped name.
pub fn get_leading_name_node_of_type(t: &SyntaxTree, n: usize) -> (r: Option<usize>)
    requires
        t.wf(),
        n < t@.len(),
        type_shape_ok(t@, n as int),
    ensures
        r == spec_leading_name_of_type(t@, n as int),
        r is Some ==> r->Some_0 < t@.len(),
    decreases t@.len() - n, 1int,
{
    match t.kind(n) {
        SyntaxKind::TypeIdentifier => Some(n),
        SyntaxKind::ScopedTypeIdentifier => get_leading_name_node_of_scoped_identifier(t, n),
        _ => None,
    }
}

} // verus!
