//! Segmented name paths, as carried by path-restricted visibilities.

use vstd::prelude::*;

use crate::tree::{
    lemma_child_by_field_range, spec_child_by_field, tree_wf, FieldName, SyntaxKind, SyntaxNode,
    SyntaxTree,
};

verus! {

/// A dotted path of name segments. It is recorded for callers that need it
/// and never itself resolved against the scope graph.
#[derive(Debug)]
pub struct SimplePath {
    segments: Vec<String>,
}

impl View for SimplePath {
    type V = Seq<Seq<char>>;

    closed spec fn view(&self) -> Seq<Seq<char>> {
        self.segments.deep_view()
    }
}

/// Shape that path extraction expects of the subtree at `n`: every scoped
/// segment carries both its `path` and its `name` field.
pub open spec fn simple_path_ok(ns: Seq<SyntaxNode>, n: int) -> bool
    decreases ns.len() - n,
    when tree_wf(ns) && 0 <= n < ns.len()
{
    if ns[n].kind == SyntaxKind::ScopedIdentifier {
        &&& spec_child_by_field(ns, n, FieldName::Path) is Some
        &&& spec_child_by_field(ns, n, FieldName::Name) is Some
        &&& {
            let path = spec_child_by_field(ns, n, FieldName::Path)->Some_0 as int;
            (ns[path].kind != SyntaxKind::BracketedType && ns[path].kind
                != SyntaxKind::GenericType) ==> (n < path < ns.len() && simple_path_ok(ns, path))
        }
    } else {
        true
    }
}

/// The segment texts the subtree at `n` denotes, or `None` where the node is
/// not a plain segmented path.
pub open spec fn spec_simple_path(ns: Seq<SyntaxNode>, n: int) -> Option<Seq<Seq<char>>>
    decreases ns.len() - n,
    when tree_wf(ns) && 0 <= n < ns.len()
{
    if ns[n].kind == SyntaxKind::ScopedIdentifier {
        match spec_child_by_field(ns, n, FieldName::Path) {
            Some(path) => {
                if ns[path as int].kind == SyntaxKind::BracketedType || ns[path as int].kind
                    == SyntaxKind::GenericType {
                    None
                } else if n < path < ns.len() {
                    match spec_simple_path(ns, path as int) {
                        Some(prefix) => match spec_child_by_field(ns, n, FieldName::Name) {
                            Some(name) => Some(prefix.push(ns[name as int].text@)),
                            None => None,
                        },
                        None => None,
                    }
                } else {
                    None
                }
            },
            None => None,
        }
    } else if ns[n].kind == SyntaxKind::Metavariable {
        None
    } else {
        Some(seq![ns[n].text@])
    }
}

impl SimplePath {
    /// A path made of the given segments.
    pub fn new(segments: Vec<String>) -> (p: Self)
        ensures
            p@ == segments.deep_view(),
    {
        SimplePath { segments }
    }

    /// A copy of this path with the same segments.
    pub fn duplicate(&self) -> (r: SimplePath)
        ensures
            r@ == self@,
    {
        let mut segments: Vec<String> = Vec::new();
        let mut i: usize = 0;
        while i < self.segments.len()
            invariant
                i <= self.segments@.len(),
                segments@.len() == i,
                forall|j: int| 0 <= j < i ==> #[trigger] segments@[j]@ == self.segments@[j]@,
            decreases self.segments@.len() - i,
        {
            segments.push(self.segments[i].clone());
            i = i + 1;
        }
        let r = SimplePath { segments };
        proof {
            assert(r@ =~= self@);
        }
        r
    }

    /// The same path extended by one trailing segment.
    pub fn and_push(self, segment: String) -> (p: Self)
        ensures
            p@ == self@.push(segment@),
    {
        let ghost before = self@;
        let mut segments = self.segments;
        segments.push(segment);
        let p = SimplePath { segments };
        proof {
            assert(p@ =~= before.push(segment@));
        }
        p
    }

    /// Reads the segmented path the subtree at `n` denotes, if it is a plain
    /// one: a scoped name contributes its leading path's segments and then its
    /// own trailing name; a metavariable, or a bracketed or generic prefix,
    /// is no plain path.
    pub fn from_node(t: &SyntaxTree, n: usize) -> (r: Option<Self>)
        requires
            t.wf(),
            n < t@.len(),
            simple_path_ok(t@, n as int),
        ensures
            r is Some <==> spec_simple_path(t@, n as int) is Some,
            r is Some ==> r->Some_0@ == spec_simple_path(t@, n as int)->Some_0,
        decreases t@.len() - n,
    {
        match t.kind(n) {
            SyntaxKind::ScopedIdentifier => {
                let path = t.child_by_field(n, FieldName::Path).unwrap();
                proof {
                    lemma_child_by_field_range(t@, n as int, FieldName::Path);
                }
                match t.kind(path) {
                    SyntaxKind::BracketedType | SyntaxKind::GenericType => None,
                    _ => match Self::from_node(t, path) {
                        Some(prefix) => {
                            let name = t.child_by_field(n, FieldName::Name).unwrap();
                            Some(prefix.and_push(t.text(name).clone()))
                        },
                        None => None,
                    },
                }
            },
            SyntaxKind::Metavariable => None,
            _ => {
                let segment = t.text(n).clone();
                let segments: Vec<String> = vec![segment];
                let p = SimplePath::new(segments);
                proof {
                    assert(p@ =~= seq![t@[n as int].text@]);
                }
                Some(p)
            },
        }
    }
}

} // verus!
