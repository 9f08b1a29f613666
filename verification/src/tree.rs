//! A parsed syntax tree, held as plain values.
//!
//! The analyzer consumes a tree of typed nodes: each node carries the
//! syntactic kind the grammar gave it, the name of the field it fills in its
//! parent (if any), whether the parser counts it as a named node, and the
//! source text it spans (recorded for the leaf nodes whose text the analysis
//! reads). Nodes are addressed by stable indices into one growable store;
//! children always carry larger indices than their parent, so walks in either
//! direction terminate.

use vstd::prelude::*;

verus! {

/// The syntactic category of a node, mirroring the grammar's node kinds.
#[derive(Clone, Copy, Debug, PartialEq, Eq, Structural)]
pub enum SyntaxKind {
    SourceFile,
    StructItem,
    ModItem,
    FunctionItem,
    ExternCrateDeclaration,
    UseDeclaration,
    TypeItem,
    UnionItem,
    EnumItem,
    ConstItem,
    StaticItem,
    TraitItem,
    MacroDefinition,
    LetDeclaration,
    Identifier,
    TypeIdentifier,
    ScopedIdentifier,
    ScopedTypeIdentifier,
    ArrowSeparatedPair,
    TypeArguments,
    UseAsClause,
    UseList,
    ScopedUseList,
    UseWildcard,
    Self_,
    EnumVariant,
    EnumVariantList,
    Attribute,
    AttributeItem,
    BracketedType,
    GenericType,
    QualifiedType,
    Metavariable,
    MacroInvocation,
    MacroRule,
    VisibilityModifier,
    Crate,
    Super,
    Pub,
    LParen,
    RParen,
    In,
    FieldDeclarationList,
    FieldDeclaration,
    FieldIdentifier,
    DeclarationList,
    Block,
    PrimitiveType,
    IntegerLiteral,
    BinaryExpression,
    ExpressionStatement,
    CallExpression,
    Arguments,
    Parameters,
    TokenTree,
    TokenTreePattern,
    FunctionModifiers,
    Other,
}

/// The grammar field a child node fills in its parent.
#[derive(Clone, Copy, Debug, PartialEq, Eq, Structural)]
pub enum FieldName {
    Name,
    Alias,
    Pattern,
    Argument,
    Path,
    List,
    Ty,
    Key,
    Value,
    Body,
    MacroName,
}

/// One node of the syntax tree.
pub struct SyntaxNode {
    /// The grammar kind of this node.
    pub kind: SyntaxKind,
    /// Whether the parser counts this node as named (anonymous tokens are not).
    pub named: bool,
    /// The field this node fills in its parent, if the grammar names one.
    pub field: Option<FieldName>,
    /// The source text this node spans; recorded for leaves, empty elsewhere.
    pub text: String,
    /// The index of the parent node; the root stores its own index, zero.
    pub parent: usize,
    /// The indices of the children, in source order, strictly increasing.
    pub children: Vec<usize>,
}

/// Well-formedness of one node's links at index `i` of the store `ns`.
pub open spec fn node_ok(ns: Seq<SyntaxNode>, i: int) -> bool {
    &&& i == 0 ==> ns[i].parent == 0
    &&& i > 0 ==> ns[i].parent < i && ns[ns[i].parent as int].children@.contains(i as usize)
    &&& forall|k: int| 0 <= k < ns[i].children@.len() ==> #[trigger] child_ok(ns, i, k)
}

/// Well-formedness of the `k`th child link of node `i`: in range, below its
/// parent in index order, linked back, and ordered before the next child.
pub open spec fn child_ok(ns: Seq<SyntaxNode>, i: int, k: int) -> bool {
    let c = ns[i].children@[k] as int;
    &&& i < c < ns.len()
    &&& ns[c].parent == i
    &&& k + 1 < ns[i].children@.len() ==> c < ns[i].children@[k + 1] as int
}

/// A whole syntax tree: an append-only store of nodes, the root at index zero.
pub struct SyntaxTree {
    nodes: Vec<SyntaxNode>,
}

impl View for SyntaxTree {
    type V = Seq<SyntaxNode>;

    closed spec fn view(&self) -> Seq<SyntaxNode> {
        self.nodes@
    }
}

/// Well-formedness of a whole node store: nonempty, rooted at index zero,
/// every link in range, children above their parents and mutually ordered.
pub open spec fn tree_wf(ns: Seq<SyntaxNode>) -> bool {
    &&& 1 <= ns.len()
    &&& forall|i: int| 0 <= i < ns.len() ==> #[trigger] node_ok(ns, i)
}

impl SyntaxTree {
    /// The tree is well-formed; see [`tree_wf`].
    pub open spec fn wf(&self) -> bool {
        tree_wf(self@)
    }

    /// A fresh tree holding only a root node of the given kind.
    pub fn new(kind: SyntaxKind) -> (t: Self)
        ensures
            t.wf(),
            t@.len() == 1,
            t@[0].kind == kind,
            t@[0].named,
            t@[0].field is None,
            t@[0].text@ == Seq::<char>::empty(),
            t@[0].children@ == Seq::<usize>::empty(),
    {
        let root = SyntaxNode {
            kind,
            named: true,
            field: None,
            text: String::new(),
            parent: 0,
            children: Vec::new(),
        };
        let nodes: Vec<SyntaxNode> = vec![root];
        let t = SyntaxTree { nodes };
        proof {
            assert(node_ok(t@, 0));
        }
        t
    }

    /// Appends a new leafless node as the last child of `parent` and returns
    /// its index. Text is recorded as given; pass the empty string for nodes
    /// whose text the analysis never reads.
    pub fn add_child(
        &mut self,
        parent: usize,
        kind: SyntaxKind,
        named: bool,
        field: Option<FieldName>,
        text: &str,
    ) -> (id: usize)
        requires
            old(self).wf(),
            parent < old(self)@.len(),
        ensures
            final(self).wf(),
            id == old(self)@.len(),
            final(self)@.len() == old(self)@.len() + 1,
            final(self)@[id as int].kind == kind,
            final(self)@[id as int].named == named,
            final(self)@[id as int].field == field,
            final(self)@[id as int].text@ == text@,
            final(self)@[id as int].parent == parent,
            final(self)@[id as int].children@ == Seq::<usize>::empty(),
            final(self)@[parent as int].children@ == old(self)@[parent as int].children@.push(id),
            final(self)@[parent as int].kind == old(self)@[parent as int].kind,
            final(self)@[parent as int].named == old(self)@[parent as int].named,
            final(self)@[parent as int].field == old(self)@[parent as int].field,
            final(self)@[parent as int].text == old(self)@[parent as int].text,
            final(self)@[parent as int].parent == old(self)@[parent as int].parent,
            forall|j: int|
                0 <= j < old(self)@.len() && j != parent ==> final(self)@[j] == old(self)@[j],
    {
        let id = self.nodes.len();
        let node = SyntaxNode {
            kind,
            named,
            field,
            text: text.to_owned(),
            parent,
            children: Vec::new(),
        };
        self.nodes.push(node);
        let parent_node = &mut self.nodes[parent];
        parent_node.children.push(id);
        proof {
            let ns0 = old(self)@;
            let ns = self@;
            assert forall|i: int| 0 <= i < ns.len() implies #[trigger] node_ok(ns, i) by {
                if i < ns0.len() {
                    assert(node_ok(ns0, i));
                    if i == parent {
                        assert forall|k: int| 0 <= k < ns[i].children@.len() implies #[trigger]
                            child_ok(ns, i, k) by {
                            if k < ns0[i].children@.len() {
                                assert(child_ok(ns0, i, k));
                                let c = ns0[i].children@[k] as int;
                                assert(c < ns0.len());
                            } else {
                                assert(ns[i].children@[k] == id);
                            }
                        }
                        if i > 0 {
                            let p = ns0[i].parent as int;
                            assert(ns[p].children@.contains(i as usize));
                        }
                    } else {
                        assert(ns[i] == ns0[i]);
                        assert forall|k: int| 0 <= k < ns[i].children@.len() implies #[trigger]
                            child_ok(ns, i, k) by {
                            assert(child_ok(ns0, i, k));
                            let c = ns0[i].children@[k] as int;
                            assert(ns[c].parent == ns0[c].parent);
                        }
                        if i > 0 {
                            let p = ns0[i].parent as int;
                            if p == parent {
                                assert(ns[p].children@ == ns0[p].children@.push(id as usize));
                                assert(ns0[p].children@.contains(i as usize));
                                let w = choose|w: int|
                                    0 <= w < ns0[p].children@.len() && ns0[p].children@[w] == i as usize;
                                assert(ns[p].children@[w] == i as usize);
                            } else {
                                assert(ns[p] == ns0[p]);
                            }
                        }
                    }
                } else {
                    assert(i == id);
                    assert(ns[parent as int].children@.last() == id as usize);
                    assert(ns[parent as int].children@.contains(id as usize));
                }
            }
        }
        id
    }

    /// The number of nodes in the tree.
    pub fn len(&self) -> (n: usize)
        ensures
            n == self@.len(),
    {
        self.nodes.len()
    }

    /// The kind of node `i`.
    pub fn kind(&self, i: usize) -> (k: SyntaxKind)
        requires
            i < self@.len(),
        ensures
            k == self@[i as int].kind,
    {
        self.nodes[i].kind
    }

    /// Whether node `i` is a named node.
    pub fn is_named(&self, i: usize) -> (r: bool)
        requires
            i < self@.len(),
        ensures
            r == self@[i as int].named,
    {
        self.nodes[i].named
    }

    /// The field node `i` fills in its parent, if any.
    pub fn field_of(&self, i: usize) -> (r: Option<FieldName>)
        requires
            i < self@.len(),
        ensures
            r == self@[i as int].field,
    {
        self.nodes[i].field
    }

    /// The source text of node `i`.
    pub fn text(&self, i: usize) -> (s: &String)
        requires
            i < self@.len(),
        ensures
            s == &self@[i as int].text,
    {
        &self.nodes[i].text
    }

    /// The parent of node `i`, or `None` for the root.
    pub fn parent_of(&self, i: usize) -> (p: Option<usize>)
        requires
            self.wf(),
            i < self@.len(),
        ensures
            p == spec_parent(self@, i as int),
    {
        if i == 0 {
            None
        } else {
            proof {
                assert(node_ok(self@, i as int));
            }
            Some(self.nodes[i].parent)
        }
    }

    /// The children of node `i`, in source order.
    pub fn children_of(&self, i: usize) -> (cs: &Vec<usize>)
        requires
            i < self@.len(),
        ensures
            cs == &self@[i as int].children,
    {
        &self.nodes[i].children
    }

    /// The first child of node `i` that fills the field `f`, if any.
    pub fn child_by_field(&self, i: usize, f: FieldName) -> (r: Option<usize>)
        requires
            self.wf(),
            i < self@.len(),
        ensures
            r == spec_child_by_field(self@, i as int, f),
            r is Some ==> r->Some_0 < self@.len(),
    {
        proof {
            assert(node_ok(self@, i as int));
        }
        let n = self.nodes.len();
        let mut k: usize = 0;
        while k < self.nodes[i].children.len()
            invariant
                self.wf(),
                i < self@.len(),
                n == self@.len(),
                k <= self@[i as int].children@.len(),
                spec_child_by_field(self@, i as int, f) == find_field_from(
                    self@,
                    self@[i as int].children@,
                    f,
                    k as int,
                ),
            decreases self@[i as int].children@.len() - k,
        {
            proof {
                assert(node_ok(self@, i as int));
                assert(child_ok(self@, i as int, k as int));
            }
            let c = self.nodes[i].children[k];
            let matches_field = match self.nodes[c].field {
                Some(g) => g == f,
                None => false,
            };
            if matches_field {
                return Some(c);
            }
            k = k + 1;
        }
        None
    }

    /// The first named child of node `i`, if any.
    pub fn first_named_child(&self, i: usize) -> (r: Option<usize>)
        requires
            self.wf(),
            i < self@.len(),
        ensures
            r == spec_first_named_child(self@, i as int),
            r is Some ==> r->Some_0 < self@.len(),
    {
        proof {
            assert(node_ok(self@, i as int));
        }
        let mut k: usize = 0;
        while k < self.nodes[i].children.len()
            invariant
                self.wf(),
                i < self@.len(),
                k <= self@[i as int].children@.len(),
                spec_first_named_child(self@, i as int) == find_named_from(
                    self@,
                    self@[i as int].children@,
                    k as int,
                ),
            decreases self@[i as int].children@.len() - k,
        {
            proof {
                assert(node_ok(self@, i as int));
                assert(child_ok(self@, i as int, k as int));
            }
            let c = self.nodes[i].children[k];
            if self.nodes[c].named {
                return Some(c);
            }
            k = k + 1;
        }
        None
    }
}

/// The first entry of `cs`, from position `k` on, whose node fills field `f`.
pub open spec fn find_field_from(
    ns: Seq<SyntaxNode>,
    cs: Seq<usize>,
    f: FieldName,
    k: int,
) -> Option<usize>
    decreases cs.len() - k,
{
    if k < 0 || k >= cs.len() {
        None
    } else if ns[cs[k] as int].field == Some(f) {
        Some(cs[k])
    } else {
        find_field_from(ns, cs, f, k + 1)
    }
}

/// The first child of node `i` that fills field `f`, if any.
pub open spec fn spec_child_by_field(ns: Seq<SyntaxNode>, i: int, f: FieldName) -> Option<usize> {
    find_field_from(ns, ns[i].children@, f, 0)
}

/// The first entry of `cs`, from position `k` on, whose node is named.
pub open spec fn find_named_from(ns: Seq<SyntaxNode>, cs: Seq<usize>, k: int) -> Option<usize>
    decreases cs.len() - k,
{
    if k < 0 || k >= cs.len() {
        None
    } else if ns[cs[k] as int].named {
        Some(cs[k])
    } else {
        find_named_from(ns, cs, k + 1)
    }
}

/// The first named child of node `i`, if any.
pub open spec fn spec_first_named_child(ns: Seq<SyntaxNode>, i: int) -> Option<usize> {
    find_named_from(ns, ns[i].children@, 0)
}

/// The entry a field search returns is one of the searched entries.
pub proof fn lemma_find_field_mem(ns: Seq<SyntaxNode>, cs: Seq<usize>, f: FieldName, k: int)
    requires
        find_field_from(ns, cs, f, k) is Some,
    ensures
        exists|j: int|
            k <= j < cs.len() && cs[j] == find_field_from(ns, cs, f, k)->Some_0,
    decreases cs.len() - k,
{
    if k < 0 || k >= cs.len() {
    } else if ns[cs[k] as int].field == Some(f) {
    } else {
        lemma_find_field_mem(ns, cs, f, k + 1);
    }
}

/// The entry a named-child search returns is one of the searched entries.
pub proof fn lemma_find_named_mem(ns: Seq<SyntaxNode>, cs: Seq<usize>, k: int)
    requires
        find_named_from(ns, cs, k) is Some,
    ensures
        exists|j: int| k <= j < cs.len() && cs[j] == find_named_from(ns, cs, k)->Some_0,
    decreases cs.len() - k,
{
    if k < 0 || k >= cs.len() {
    } else if ns[cs[k] as int].named {
    } else {
        lemma_find_named_mem(ns, cs, k + 1);
    }
}

/// A field lookup returns a child of the node: in range, strictly above the
/// node in index order, and linked back to it.
pub proof fn lemma_child_by_field_range(ns: Seq<SyntaxNode>, i: int, f: FieldName)
    requires
        tree_wf(ns),
        0 <= i < ns.len(),
        spec_child_by_field(ns, i, f) is Some,
    ensures
        ({
            let c = spec_child_by_field(ns, i, f)->Some_0 as int;
            i < c < ns.len() && ns[c].parent == i && ns[i].children@.contains(c as usize)
        }),
{
    let c = spec_child_by_field(ns, i, f)->Some_0;
    lemma_find_field_mem(ns, ns[i].children@, f, 0);
    let j = choose|j: int| 0 <= j < ns[i].children@.len() && ns[i].children@[j] == c;
    assert(node_ok(ns, i));
    assert(child_ok(ns, i, j));
}

/// A named-child lookup returns a child of the node: in range, strictly above
/// the node in index order, and linked back to it.
pub proof fn lemma_first_named_child_range(ns: Seq<SyntaxNode>, i: int)
    requires
        tree_wf(ns),
        0 <= i < ns.len(),
        spec_first_named_child(ns, i) is Some,
    ensures
        ({
            let c = spec_first_named_child(ns, i)->Some_0 as int;
            i < c < ns.len() && ns[c].parent == i && ns[i].children@.contains(c as usize)
        }),
{
    let c = spec_first_named_child(ns, i)->Some_0;
    lemma_find_named_mem(ns, ns[i].children@, 0);
    let j = choose|j: int| 0 <= j < ns[i].children@.len() && ns[i].children@[j] == c;
    assert(node_ok(ns, i));
    assert(child_ok(ns, i, j));
}

/// The parent of node `i`, or `None` for the root.
pub open spec fn spec_parent(ns: Seq<SyntaxNode>, i: int) -> Option<usize> {
    if i == 0 {
        None
    } else {
        Some(ns[i].parent)
    }
}

} // verus!
