//! Declaration-site records: what kind of construct declared a name, where,
//! and with which visibility.

use vstd::prelude::*;

use crate::path::{simple_path_ok, spec_simple_path, SimplePath};
use crate::tree::{
    lemma_child_by_field_range, lemma_first_named_child_range, spec_first_named_child, tree_wf,
    SyntaxKind, SyntaxNode, SyntaxTree,
};

verus! {

/// The construct kind that introduced a declaration.
#[derive(Clone, Copy, Debug, PartialEq, Eq, Structural)]
pub enum DefinitionKind {
    Variable,
    Struct,
    Module,
    Function,
    TypeAlias,
    Union,
    Enum,
    Const,
    Static,
    Trait,
    Macro,
    ExternCrateDeclaration,
    Use,
}

/// The declared visibility of an item. It is recorded for callers; the
/// resolver never consults it.
#[derive(Debug)]
pub enum Visibility {
    Pub,
    Private,
    PubInPath(SimplePath),
    PubCrate,
    PubSuper,
    PubSelf,
}

/// Equality of visibilities up to the view of a carried path.
pub open spec fn vis_eq(a: Visibility, b: Visibility) -> bool {
    match (a, b) {
        (Visibility::Pub, Visibility::Pub) => true,
        (Visibility::Private, Visibility::Private) => true,
        (Visibility::PubCrate, Visibility::PubCrate) => true,
        (Visibility::PubSuper, Visibility::PubSuper) => true,
        (Visibility::PubSelf, Visibility::PubSelf) => true,
        (Visibility::PubInPath(p), Visibility::PubInPath(q)) => p@ == q@,
        _ => false,
    }
}

/// Shape that visibility parsing expects of a visibility-modifier node: a
/// leading `pub` token, and, when qualified, a parenthesis followed by
/// `self`, `super`, `crate`, or `in` with a plain segmented path.
pub open spec fn vis_modifier_ok(ns: Seq<SyntaxNode>, v: int) -> bool {
    let cs = ns[v].children@;
    &&& 1 <= cs.len()
    &&& forall|k: int| 0 <= k < cs.len() ==> #[trigger] cs[k] < ns.len()
    &&& ns[cs[0] as int].kind == SyntaxKind::Pub
    &&& 2 <= cs.len() ==> {
        &&& ns[cs[1] as int].kind == SyntaxKind::LParen
        &&& 3 <= cs.len()
        &&& (ns[cs[2] as int].kind == SyntaxKind::Self_ || ns[cs[2] as int].kind
            == SyntaxKind::Super || ns[cs[2] as int].kind == SyntaxKind::Crate || ns[cs[2] as int].kind
            == SyntaxKind::In)
        &&& ns[cs[2] as int].kind == SyntaxKind::In ==> {
            &&& 4 <= cs.len()
            &&& simple_path_ok(ns, cs[3] as int)
            &&& spec_simple_path(ns, cs[3] as int) is Some
        }
    }
}

/// The visibility value a well-shaped visibility-modifier node denotes.
pub open spec fn vis_matches_modifier(ns: Seq<SyntaxNode>, v: int, vis: Visibility) -> bool {
    let cs = ns[v].children@;
    if cs.len() == 1 {
        vis matches Visibility::Pub
    } else {
        match ns[cs[2] as int].kind {
            SyntaxKind::Self_ => vis matches Visibility::PubSelf,
            SyntaxKind::Super => vis matches Visibility::PubSuper,
            SyntaxKind::Crate => vis matches Visibility::PubCrate,
            SyntaxKind::In => match vis {
                Visibility::PubInPath(p) => Some(p@) == spec_simple_path(ns, cs[3] as int),
                _ => false,
            },
            _ => false,
        }
    }
}

/// Shape that per-item visibility parsing expects of a declaration node: if
/// its first named child is a visibility modifier, that modifier is well
/// shaped.
pub open spec fn item_vis_ok(ns: Seq<SyntaxNode>, n: int) -> bool {
    match spec_first_named_child(ns, n) {
        Some(c) => ns[c as int].kind == SyntaxKind::VisibilityModifier ==> vis_modifier_ok(
            ns,
            c as int,
        ),
        None => true,
    }
}

/// The visibility a declaration node carries: the value of its leading
/// visibility modifier, or private by default.
pub open spec fn item_vis_matches(ns: Seq<SyntaxNode>, n: int, vis: Visibility) -> bool {
    match spec_first_named_child(ns, n) {
        Some(c) => if ns[c as int].kind == SyntaxKind::VisibilityModifier {
            vis_matches_modifier(ns, c as int, vis)
        } else {
            vis matches Visibility::Private
        },
        None => vis matches Visibility::Private,
    }
}

impl Visibility {
    /// Reads the visibility a well-shaped visibility-modifier node denotes.
    pub fn from_visibility_modifier(t: &SyntaxTree, v: usize) -> (vis: Visibility)
        requires
            t.wf(),
            v < t@.len(),
            vis_modifier_ok(t@, v as int),
        ensures
            vis_matches_modifier(t@, v as int, vis),
    {
        let cs = t.children_of(v);
        if cs.len() == 1 {
            Visibility::Pub
        } else {
            let qualifier = cs[2];
            match t.kind(qualifier) {
                SyntaxKind::Self_ => Visibility::PubSelf,
                SyntaxKind::Super => Visibility::PubSuper,
                SyntaxKind::Crate => Visibility::PubCrate,
                _ => {
                    let path_node = cs[3];
                    let path = SimplePath::from_node(t, path_node).unwrap();
                    Visibility::PubInPath(path)
                },
            }
        }
    }

    /// A copy of this visibility, equal up to the view of a carried path.
    pub fn duplicate(&self) -> (r: Visibility)
        ensures
            vis_eq(r, *self),
    {
        match self {
            Visibility::Pub => Visibility::Pub,
            Visibility::Private => Visibility::Private,
            Visibility::PubCrate => Visibility::PubCrate,
            Visibility::PubSuper => Visibility::PubSuper,
            Visibility::PubSelf => Visibility::PubSelf,
            Visibility::PubInPath(p) => Visibility::PubInPath(p.duplicate()),
        }
    }

    /// Reads the visibility of a declaration node: parses its leading
    /// visibility modifier where one stands, and yields private otherwise.
    pub fn from_item(t: &SyntaxTree, n: usize) -> (vis: Visibility)
        requires
            t.wf(),
            n < t@.len(),
            item_vis_ok(t@, n as int),
        ensures
            item_vis_matches(t@, n as int, vis),
    {
        match t.first_named_child(n) {
            Some(c) => {
                proof {
                    lemma_first_named_child_range(t@, n as int);
                }
                if t.kind(c) == SyntaxKind::VisibilityModifier {
                    Visibility::from_visibility_modifier(t, c)
                } else {
                    Visibility::Private
                }
            },
            None => Visibility::Private,
        }
    }
}

/// The declaration-site record of one named entity.
#[derive(Debug)]
pub struct Definition {
    /// The construct kind that declared the name.
    pub kind: DefinitionKind,
    /// The node of the declared name itself.
    pub name: usize,
    /// The enclosing declaration construct's node.
    pub node: usize,
    /// The declared visibility.
    pub visibility: Visibility,
}

impl Definition {
    /// Appends a new definition record to the store and returns its handle.
    pub fn new(
        definitions: &mut Vec<Definition>,
        kind: DefinitionKind,
        name: usize,
        node: usize,
        visibility: Visibility,
    ) -> (id: usize)
        ensures
            id == old(definitions)@.len(),
            final(definitions)@.len() == old(definitions)@.len() + 1,
            final(definitions)@[id as int].kind == kind,
            final(definitions)@[id as int].name == name,
            final(definitions)@[id as int].node == node,
            final(definitions)@[id as int].visibility == visibility,
            forall|j: int|
                0 <= j < old(definitions)@.len() ==> final(definitions)@[j] == old(definitions)@[j],
    {
        let id = definitions.len();
        definitions.push(Definition { kind, name, node, visibility });
        id
    }

    /// The construct kind that declared the name.
    pub fn kind(&self) -> (k: DefinitionKind)
        ensures
            k == self.kind,
    {
        self.kind
    }

    /// The node of the declared name itself.
    pub fn name(&self) -> (n: usize)
        ensures
            n == self.name,
    {
        self.name
    }

    /// The enclosing declaration construct's node.
    pub fn node(&self) -> (n: usize)
        ensures
            n == self.node,
    {
        self.node
    }
}

} // verus!
