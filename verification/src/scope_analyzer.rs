//! The analyzer: one depth-first, pre-order walk of the syntax tree that
//! builds the scope graph, records definitions and references, and drains
//! each scope's resolution queue as the walk leaves it.

use vstd::prelude::*;

use crate::arenas::{scope_ok, state_ok, AllArenas};
use crate::ast_helpers::{
    get_leading_name_node_of_scoped_identifier, is_discard, is_enum_variant_name,
    is_simple_identifier, scoped_shape_ok, spec_is_attribute_name, spec_is_enum_variant_name,
    spec_is_macro_name, spec_is_simple_identifier, spec_leading_name_of_scoped,
};
use crate::definition::{item_vis_matches, item_vis_ok, vis_eq, DefinitionKind, Visibility};
use crate::reference::UsageKind;
use crate::scope::{closed_scope, defined, referenced, scope_opened, unmatched_of, Scope, ScopeKind};
use crate::tree::{
    child_ok, lemma_child_by_field_range, node_ok, spec_child_by_field, tree_wf, FieldName,
    SyntaxKind, SyntaxNode, SyntaxTree,
};

verus! {

/// The state of one analysis run: the entity stores, the scopes in creation
/// order, and the innermost scope still open.
pub struct ScopeAnalyzer {
    /// Handles of all scopes, in creation order.
    pub scopes: Vec<usize>,
    /// The entity stores this run owns.
    pub arena: AllArenas,
    /// The innermost scope the walk currently stands in.
    pub current_scope: Option<usize>,
}

/// The analyzer's well-formedness: the stores are well formed, the creation
/// list mirrors the scope store, and the current scope is in range.
pub open spec fn analyzer_wf(z: ScopeAnalyzer, ns: Seq<SyntaxNode>) -> bool {
    &&& state_ok(z.arena, ns)
    &&& z.scopes@.len() == z.arena.scopes@.len()
    &&& forall|i: int| 0 <= i < z.scopes@.len() ==> #[trigger] z.scopes@[i] == i as usize
    &&& (z.current_scope is Some ==> z.current_scope->Some_0 < z.arena.scopes@.len())
}

/// The syntactic role of the name usage at node `n`: attribute position,
/// macro-invocation position, or a plain identifier or type position.
pub open spec fn spec_usage_kind(ns: Seq<SyntaxNode>, n: int) -> UsageKind {
    if spec_is_attribute_name(ns, n) {
        UsageKind::AttributeName
    } else if spec_is_macro_name(ns, n) {
        UsageKind::Macro
    } else {
        UsageKind::IdentifierReference
    }
}

/// Classifies the name usage at node `n` by its surroundings.
pub fn get_usage_kind(t: &SyntaxTree, n: usize) -> (k: UsageKind)
    requires
        t.wf(),
        n < t@.len(),
        t@[n as int].kind == SyntaxKind::TypeIdentifier || t@[n as int].kind
            == SyntaxKind::ScopedTypeIdentifier || t@[n as int].kind == SyntaxKind::Identifier
            || t@[n as int].kind == SyntaxKind::ScopedIdentifier,
    ensures
        k == spec_usage_kind(t@, n as int),
{
    if crate::ast_helpers::is_attribute_name(t, n) {
        UsageKind::AttributeName
    } else if crate::ast_helpers::is_macro_name(t, n) {
        UsageKind::Macro
    } else {
        UsageKind::IdentifierReference
    }
}

impl ScopeAnalyzer {
    /// A fresh analyzer with empty stores and no open scope.
    pub fn new() -> (z: Self)
        ensures
            z.scopes@ == Seq::<usize>::empty(),
            z.arena.scopes@ == Seq::<Scope>::empty(),
            z.arena.definitions@.len() == 0,
            z.arena.variables@.len() == 0,
            z.arena.references@.len() == 0,
            z.current_scope is None,
    {
        ScopeAnalyzer { scopes: Vec::new(), arena: AllArenas::new(), current_scope: None }
    }

    /// The scope behind a handle.
    pub fn borrow_scope(&self, scope: usize) -> (s: &Scope)
        requires
            scope < self.arena.scopes@.len(),
        ensures
            s == &self.arena.scopes@[scope as int],
    {
        &self.arena.scopes[scope]
    }

    /// The variable behind a handle.
    pub fn borrow_variable(&self, variable: usize) -> (v: &crate::variable::Variable)
        requires
            variable < self.arena.variables@.len(),
        ensures
            v == &self.arena.variables@[variable as int],
    {
        &self.arena.variables[variable]
    }

    /// The reference behind a handle.
    pub fn borrow_reference(&self, reference: usize) -> (r: &crate::reference::Reference)
        requires
            reference < self.arena.references@.len(),
        ensures
            r == &self.arena.references@[reference as int],
    {
        &self.arena.references[reference]
    }

    /// The definition behind a handle.
    pub fn borrow_definition(&self, definition: usize) -> (d: &crate::definition::Definition)
        requires
            definition < self.arena.definitions@.len(),
        ensures
            d == &self.arena.definitions@[definition as int],
    {
        &self.arena.definitions[definition]
    }

    /// The root scope: the first scope the analysis created.
    pub fn root_scope(&self) -> (s: &Scope)
        requires
            1 <= self.arena.scopes@.len(),
        ensures
            s == &self.arena.scopes@[0],
    {
        &self.arena.scopes[0]
    }

    /// Steps into a scope that was just created: records it in creation
    /// order and makes it current.
    fn enter_scope(&mut self, scope: usize)
        requires
            old(self).scopes@.len() + 1 == old(self).arena.scopes@.len(),
            scope as int == old(self).arena.scopes@.len() - 1,
            forall|i: int|
                0 <= i < old(self).scopes@.len() ==> #[trigger] old(self).scopes@[i] == i as usize,
        ensures
            final(self).arena == old(self).arena,
            final(self).scopes@ == old(self).scopes@.push(scope),
            final(self).scopes@.len() == final(self).arena.scopes@.len(),
            forall|i: int|
                0 <= i < final(self).scopes@.len() ==> #[trigger] final(self).scopes@[i]
                    == i as usize,
            final(self).current_scope == Some(scope),
    {
        self.scopes.push(scope);
        self.current_scope = Some(scope);
    }

    /// Closes the given scope and steps back out to its parent. Scopes close
    /// in strict last-opened-first-closed order, mirroring the nesting of
    /// constructs, so the scope being closed is the innermost open one.
    fn close(&mut self, t: &SyntaxTree, scope: usize)
        requires
            t.wf(),
            analyzer_wf(*old(self), t@),
            old(self).current_scope == Some(scope),
        ensures
            analyzer_wf(*final(self), t@),
            closed_scope(old(self).arena, final(self).arena, t@, scope as int),
            final(self).current_scope == old(self).arena.scopes@[scope as int].upper,
            final(self).scopes == old(self).scopes,
    {
        proof {
            assert(scope_ok(self.arena, t@, scope as int));
        }
        let upper = self.arena.scopes[scope].upper;
        Scope::close(scope, &mut self.arena, t);
        self.current_scope = upper;
    }
}


impl ScopeAnalyzer {
    /// Records a declaration in the current scope.
    fn define(
        &mut self,
        t: &SyntaxTree,
        kind: DefinitionKind,
        visibility: Visibility,
        name: usize,
        node: usize,
    )
        requires
            t.wf(),
            analyzer_wf(*old(self), t@),
            old(self).current_scope is Some,
            name < t@.len(),
            node < t@.len(),
        ensures
            analyzer_wf(*final(self), t@),
            final(self).current_scope == old(self).current_scope,
            final(self).scopes == old(self).scopes,
            final(self).arena.scopes@.len() == old(self).arena.scopes@.len(),
            is_discard(t@, name as int) ==> final(self).arena == old(self).arena,
            !is_discard(t@, name as int) ==> defined(
                old(self).arena,
                final(self).arena,
                t@,
                old(self).current_scope->Some_0 as int,
                kind,
                visibility,
                name,
                node,
            ),
    {
        let scope = self.current_scope.unwrap();
        Scope::define(scope, &mut self.arena, t, kind, visibility, name, node);
    }

    /// Records a usage in the current scope.
    fn add_reference(&mut self, t: &SyntaxTree, usage_kind: UsageKind, node: usize)
        requires
            t.wf(),
            analyzer_wf(*old(self), t@),
            old(self).current_scope is Some,
            node < t@.len(),
        ensures
            analyzer_wf(*final(self), t@),
            final(self).current_scope == old(self).current_scope,
            final(self).scopes == old(self).scopes,
            final(self).arena.scopes@.len() == old(self).arena.scopes@.len(),
            referenced(
                old(self).arena,
                final(self).arena,
                old(self).current_scope->Some_0 as int,
                usage_kind,
                node,
            ),
    {
        let scope = self.current_scope.unwrap();
        Scope::add_reference(scope, &mut self.arena, t, usage_kind, node);
    }
}

/// The name node a lone `self` import binds: the last segment of the path
/// that precedes the braced list holding the `self`, where that shape is
/// present.
pub open spec fn self_import_name(ns: Seq<SyntaxNode>, c: int) -> Option<usize> {
    if c == 0 {
        None
    } else {
        let par = ns[c].parent as int;
        if ns[par].kind != SyntaxKind::UseList {
            None
        } else if par == 0 {
            None
        } else {
            let pp = ns[par].parent as int;
            if ns[pp].kind != SyntaxKind::ScopedUseList {
                None
            } else {
                match spec_child_by_field(ns, pp, FieldName::Path) {
                    Some(path) => if ns[path as int].kind == SyntaxKind::Identifier {
                        Some(path)
                    } else if ns[path as int].kind == SyntaxKind::ScopedIdentifier {
                        spec_child_by_field(ns, path as int, FieldName::Name)
                    } else {
                        None
                    },
                    None => None,
                }
            }
        }
    }
}

/// The import definition a single name node yields: nothing for the
/// placeholder discard name, else the node itself.
pub open spec fn leaf_name(ns: Seq<SyntaxNode>, m: int) -> Seq<usize> {
    if is_discard(ns, m) {
        Seq::empty()
    } else {
        seq![m as usize]
    }
}

/// The name nodes that flattening an import clause defines, in source
/// order: a bare name itself, a `self` import its enclosing path's last
/// segment, a path its last segment, an aliased import its alias, a braced
/// list each of its entries in turn, and a wildcard nothing.
pub open spec fn use_clause_names(ns: Seq<SyntaxNode>, c: int) -> Seq<usize>
    decreases ns.len() - c, 1int, 0int,
    when tree_wf(ns) && 0 <= c < ns.len()
    via use_clause_names_decreases
{
    match ns[c].kind {
        SyntaxKind::Identifier => leaf_name(ns, c),
        SyntaxKind::Self_ => match self_import_name(ns, c) {
            Some(m) => leaf_name(ns, m as int),
            None => Seq::empty(),
        },
        SyntaxKind::ScopedIdentifier => match spec_child_by_field(ns, c, FieldName::Name) {
            Some(m) => leaf_name(ns, m as int),
            None => Seq::empty(),
        },
        SyntaxKind::UseAsClause => match spec_child_by_field(ns, c, FieldName::Alias) {
            Some(m) => leaf_name(ns, m as int),
            None => Seq::empty(),
        },
        SyntaxKind::UseList => prefix_names(ns, c, ns[c].children@.len() as int),
        SyntaxKind::ScopedUseList => match spec_child_by_field(ns, c, FieldName::List) {
            Some(l) => if c < l < ns.len() {
                prefix_names(ns, l as int, ns[l as int].children@.len() as int)
            } else {
                Seq::empty()
            },
            None => Seq::empty(),
        },
        _ => Seq::empty(),
    }
}

#[via_fn]
proof fn use_clause_names_decreases(ns: Seq<SyntaxNode>, c: int) {
    if ns[c].kind == SyntaxKind::ScopedUseList {
        if spec_child_by_field(ns, c, FieldName::List) is Some {
            lemma_child_by_field_range(ns, c, FieldName::List);
        }
    }
}

/// Shape that import flattening expects of a clause: each leaf carries the
/// field its kind promises, a `self` entry's preceding path is a plain or
/// scoped name, and list entries are in turn well shaped. Any other node
/// kind in clause position is a grammar-contract violation.
pub open spec fn use_clause_ok(ns: Seq<SyntaxNode>, c: int) -> bool
    decreases ns.len() - c, 1int, 0int,
    when tree_wf(ns) && 0 <= c < ns.len()
{
    match ns[c].kind {
        SyntaxKind::Identifier => true,
        SyntaxKind::Self_ => c > 0 && ({
            let par = ns[c].parent as int;
            ns[par].kind == SyntaxKind::UseList ==> (par > 0 && ({
                let pp = ns[par].parent as int;
                ns[pp].kind == SyntaxKind::ScopedUseList ==> match spec_child_by_field(
                    ns,
                    pp,
                    FieldName::Path,
                ) {
                    Some(path) => ns[path as int].kind == SyntaxKind::Identifier || (ns[path as int].kind
                        == SyntaxKind::ScopedIdentifier && spec_child_by_field(
                        ns,
                        path as int,
                        FieldName::Name,
                    ) is Some),
                    None => true,
                }
            }))
        }),
        SyntaxKind::ScopedIdentifier => spec_child_by_field(ns, c, FieldName::Name) is Some,
        SyntaxKind::UseAsClause => spec_child_by_field(ns, c, FieldName::Alias) is Some,
        SyntaxKind::UseList => use_list_ok(ns, c, 0),
        SyntaxKind::ScopedUseList => spec_child_by_field(ns, c, FieldName::List) is Some && ({
            let l = spec_child_by_field(ns, c, FieldName::List)->Some_0 as int;
            c < l < ns.len() && use_list_ok(ns, l, 0)
        }),
        SyntaxKind::UseWildcard => true,
        _ => false,
    }
}

/// Shape of the named entries of a braced list from position `k` on.
pub open spec fn use_list_ok(ns: Seq<SyntaxNode>, d: int, k: int) -> bool
    decreases ns.len() - d, 0int, ns[d].children@.len() - k,
    when tree_wf(ns) && 0 <= d < ns.len()
    via use_list_ok_decreases
{
    let cs = ns[d].children@;
    if k < 0 || k >= cs.len() {
        true
    } else {
        let c = cs[k] as int;
        &&& (ns[c].named ==> use_clause_ok(ns, c))
        &&& use_list_ok(ns, d, k + 1)
    }
}

#[via_fn]
proof fn use_list_ok_decreases(ns: Seq<SyntaxNode>, d: int, k: int) {
    let cs = ns[d].children@;
    if 0 <= k < cs.len() {
        assert(node_ok(ns, d));
        assert(child_ok(ns, d, k));
    }
}

/// The relation between the stores before and after flattening an import
/// clause in scope `s`: for each flattened name node, in order, one
/// import-kind definition pointing at the declaration and one fresh
/// variable under that name, indexed into the scope; nothing else moves.
pub open spec fn use_defined(
    a0: AllArenas,
    a: AllArenas,
    ns: Seq<SyntaxNode>,
    s: int,
    decl: usize,
    vis: Visibility,
    names: Seq<usize>,
) -> bool {
    let d0 = a0.definitions@.len() as int;
    let v0 = a0.variables@.len() as int;
    let sv0 = a0.scopes@[s].variables@.len() as int;
    &&& a.definitions@.len() == d0 + names.len()
    &&& forall|j: int| 0 <= j < d0 ==> a.definitions@[j] == a0.definitions@[j]
    &&& forall|x: int|
        0 <= x < names.len() ==> ({
            let d = #[trigger] a.definitions@[d0 + x];
            &&& d.kind == DefinitionKind::Use
            &&& d.name == names[x]
            &&& d.node == decl
            &&& vis_eq(d.visibility, vis)
        })
    &&& a.variables@.len() == v0 + names.len()
    &&& forall|j: int| 0 <= j < v0 ==> a.variables@[j] == a0.variables@[j]
    &&& forall|x: int|
        0 <= x < names.len() ==> ({
            let v = #[trigger] a.variables@[v0 + x];
            &&& v.name@ == ns[names[x] as int].text@
            &&& v.definition as int == d0 + x
            &&& v.scope == s
            &&& v.references@ == Seq::<usize>::empty()
        })
    &&& a.references == a0.references
    &&& a.scopes@.len() == a0.scopes@.len()
    &&& forall|j: int| 0 <= j < a0.scopes@.len() && j != s ==> a.scopes@[j] == a0.scopes@[j]
    &&& a.scopes@[s].variables@.len() == sv0 + names.len()
    &&& forall|j: int|
        0 <= j < sv0 ==> a.scopes@[s].variables@[j] == a0.scopes@[s].variables@[j]
    &&& forall|x: int|
        0 <= x < names.len() ==> (#[trigger] a.scopes@[s].variables@[sv0 + x]) as int == v0 + x
    &&& a.scopes@[s].kind == a0.scopes@[s].kind
    &&& a.scopes@[s].node == a0.scopes@[s].node
    &&& a.scopes@[s].upper == a0.scopes@[s].upper
    &&& a.scopes@[s].references == a0.scopes@[s].references
    &&& a.scopes@[s].pre_resolved == a0.scopes@[s].pre_resolved
    &&& a.scopes@[s].through == a0.scopes@[s].through
    &&& a.scopes@[s].child_scopes == a0.scopes@[s].child_scopes
}

/// Flattening steps compose: the effects of two consecutive flattenings are
/// the effects of flattening the concatenated name list.
proof fn lemma_use_defined_trans(
    a0: AllArenas,
    a1: AllArenas,
    a2: AllArenas,
    ns: Seq<SyntaxNode>,
    s: int,
    decl: usize,
    vis: Visibility,
    names1: Seq<usize>,
    names2: Seq<usize>,
)
    requires
        use_defined(a0, a1, ns, s, decl, vis, names1),
        use_defined(a1, a2, ns, s, decl, vis, names2),
    ensures
        use_defined(a0, a2, ns, s, decl, vis, names1 + names2),
{
    let d0 = a0.definitions@.len() as int;
    let v0 = a0.variables@.len() as int;
    let sv0 = a0.scopes@[s].variables@.len() as int;
    let n1 = names1.len() as int;
    let names = names1 + names2;
    assert forall|x: int| 0 <= x < names.len() implies ({
        let d = #[trigger] a2.definitions@[d0 + x];
        &&& d.kind == DefinitionKind::Use
        &&& d.name == names[x]
        &&& d.node == decl
        &&& vis_eq(d.visibility, vis)
    }) by {
        if x < n1 {
            assert(a2.definitions@[d0 + x] == a1.definitions@[d0 + x]);
            assert(names[x] == names1[x]);
        } else {
            assert(a2.definitions@[d0 + n1 + (x - n1)].name == names2[x - n1]);
            assert(names[x] == names2[x - n1]);
        }
    }
    assert forall|x: int| 0 <= x < names.len() implies ({
        let v = #[trigger] a2.variables@[v0 + x];
        &&& v.name@ == ns[names[x] as int].text@
        &&& v.definition as int == d0 + x
        &&& v.scope == s
        &&& v.references@ == Seq::<usize>::empty()
    }) by {
        if x < n1 {
            assert(a2.variables@[v0 + x] == a1.variables@[v0 + x]);
            assert(names[x] == names1[x]);
        } else {
            assert(a2.variables@[v0 + n1 + (x - n1)].scope == s);
            assert(names[x] == names2[x - n1]);
        }
    }
    assert forall|x: int| 0 <= x < names.len() implies (#[trigger] a2.scopes@[s].variables@[sv0
        + x]) as int == v0 + x by {
        if x < n1 {
            assert(a2.scopes@[s].variables@[sv0 + x] == a1.scopes@[s].variables@[sv0 + x]);
        } else {
            assert((a2.scopes@[s].variables@[sv0 + n1 + (x - n1)]) as int == v0 + n1 + (x - n1));
        }
    }
}

impl ScopeAnalyzer {
    /// Flattens one import clause into the current scope, registering one
    /// import definition per name the clause brings in, in source order.
    fn visit_use_clause(
        &mut self,
        t: &SyntaxTree,
        visibility: &Visibility,
        use_declaration: usize,
        use_clause: usize,
    )
        requires
            t.wf(),
            analyzer_wf(*old(self), t@),
            old(self).current_scope is Some,
            use_declaration < t@.len(),
            use_clause < t@.len(),
            use_clause_ok(t@, use_clause as int),
        ensures
            analyzer_wf(*final(self), t@),
            final(self).current_scope == old(self).current_scope,
            final(self).scopes == old(self).scopes,
            final(self).arena.scopes@.len() == old(self).arena.scopes@.len(),
            use_defined(
                old(self).arena,
                final(self).arena,
                t@,
                old(self).current_scope->Some_0 as int,
                use_declaration,
                *visibility,
                use_clause_names(t@, use_clause as int),
            ),
        decreases t@.len() - use_clause,
    {
        let ghost a0 = self.arena;
        let ghost s = self.current_scope->Some_0 as int;
        let ghost names = use_clause_names(t@, use_clause as int);
        match t.kind(use_clause) {
            SyntaxKind::Identifier => {
                let dup = visibility.duplicate();
                let ghost gdup = dup;
                self.define(t, DefinitionKind::Use, dup, use_clause, use_declaration);
                proof {
                    if !is_discard(t@, use_clause as int) {
                        assert(vis_eq(gdup, *visibility) && defined(
                            a0,
                            self.arena,
                            t@,
                            s,
                            DefinitionKind::Use,
                            gdup,
                            use_clause,
                            use_declaration,
                        ));
                    }
                    lemma_use_leaf(a0, self.arena, t@, s, use_declaration, *visibility, use_clause);
                }
            },
            SyntaxKind::Self_ => {
                proof {
                    assert(node_ok(t@, use_clause as int));
                }
                let par = t.parent_of(use_clause).unwrap();
                if t.kind(par) != SyntaxKind::UseList {
                    proof {
                        lemma_use_nothing(a0, t@, s, use_declaration, *visibility);
                    }
                    return ;
                }
                proof {
                    assert(node_ok(t@, par as int));
                }
                let pp = t.parent_of(par).unwrap();
                if t.kind(pp) != SyntaxKind::ScopedUseList {
                    proof {
                        lemma_use_nothing(a0, t@, s, use_declaration, *visibility);
                    }
                    return ;
                }
                let path = match t.child_by_field(pp, FieldName::Path) {
                    Some(path) => path,
                    None => {
                        proof {
                            lemma_use_nothing(a0, t@, s, use_declaration, *visibility);
                        }
                        return ;
                    },
                };
                let preceding = if t.kind(path) == SyntaxKind::Identifier {
                    path
                } else {
                    proof {
                        lemma_child_by_field_range(t@, pp as int, FieldName::Path);
                    }
                    let m = t.child_by_field(path, FieldName::Name).unwrap();
                    proof {
                        lemma_child_by_field_range(t@, path as int, FieldName::Name);
                    }
                    m
                };
                let dup = visibility.duplicate();
                let ghost gdup = dup;
                self.define(t, DefinitionKind::Use, dup, preceding, use_declaration);
                proof {
                    if !is_discard(t@, preceding as int) {
                        assert(vis_eq(gdup, *visibility) && defined(
                            a0,
                            self.arena,
                            t@,
                            s,
                            DefinitionKind::Use,
                            gdup,
                            preceding,
                            use_declaration,
                        ));
                    }
                    lemma_use_leaf(a0, self.arena, t@, s, use_declaration, *visibility, preceding);
                    assert(self_import_name(t@, use_clause as int) == Some(preceding));
                }
            },
            SyntaxKind::ScopedIdentifier => {
                let m = t.child_by_field(use_clause, FieldName::Name).unwrap();
                proof {
                    lemma_child_by_field_range(t@, use_clause as int, FieldName::Name);
                }
                let dup = visibility.duplicate();
                let ghost gdup = dup;
                self.define(t, DefinitionKind::Use, dup, m, use_declaration);
                proof {
                    if !is_discard(t@, m as int) {
                        assert(vis_eq(gdup, *visibility) && defined(
                            a0,
                            self.arena,
                            t@,
                            s,
                            DefinitionKind::Use,
                            gdup,
                            m,
                            use_declaration,
                        ));
                    }
                    lemma_use_leaf(a0, self.arena, t@, s, use_declaration, *visibility, m);
                }
            },
            SyntaxKind::UseAsClause => {
                let m = t.child_by_field(use_clause, FieldName::Alias).unwrap();
                proof {
                    lemma_child_by_field_range(t@, use_clause as int, FieldName::Alias);
                }
                let dup = visibility.duplicate();
                let ghost gdup = dup;
                self.define(t, DefinitionKind::Use, dup, m, use_declaration);
                proof {
                    if !is_discard(t@, m as int) {
                        assert(vis_eq(gdup, *visibility) && defined(
                            a0,
                            self.arena,
                            t@,
                            s,
                            DefinitionKind::Use,
                            gdup,
                            m,
                            use_declaration,
                        ));
                    }
                    lemma_use_leaf(a0, self.arena, t@, s, use_declaration, *visibility, m);
                }
            },
            SyntaxKind::UseList => {
                self.visit_use_list(t, visibility, use_declaration, use_clause);
            },
            SyntaxKind::ScopedUseList => {
                let l = t.child_by_field(use_clause, FieldName::List).unwrap();
                self.visit_use_list(t, visibility, use_declaration, l);
            },
            _ => {
                proof {
                    lemma_use_nothing(a0, t@, s, use_declaration, *visibility);
                }
            },
        }
    }

    /// Flattens each named entry of a braced import list in turn,
    /// propagating the list's visibility to every entry.
    fn visit_use_list(
        &mut self,
        t: &SyntaxTree,
        visibility: &Visibility,
        use_declaration: usize,
        list: usize,
    )
        requires
            t.wf(),
            analyzer_wf(*old(self), t@),
            old(self).current_scope is Some,
            use_declaration < t@.len(),
            list < t@.len(),
            use_list_ok(t@, list as int, 0),
        ensures
            analyzer_wf(*final(self), t@),
            final(self).current_scope == old(self).current_scope,
            final(self).scopes == old(self).scopes,
            final(self).arena.scopes@.len() == old(self).arena.scopes@.len(),
            use_defined(
                old(self).arena,
                final(self).arena,
                t@,
                old(self).current_scope->Some_0 as int,
                use_declaration,
                *visibility,
                prefix_names(t@, list as int, t@[list as int].children@.len() as int),
            ),
        decreases t@.len() - list, t@.len(),
    {
        let ghost a0 = self.arena;
        let ghost s = self.current_scope->Some_0 as int;
        let num_children = t.children_of(list).len();
        let mut k: usize = 0;
        proof {
            lemma_use_nothing(a0, t@, s, use_declaration, *visibility);
        }
        while k < num_children
            invariant
                t.wf(),
                analyzer_wf(*self, t@),
                self.current_scope == old(self).current_scope,
                self.current_scope is Some,
                s == self.current_scope->Some_0 as int,
                self.scopes == old(self).scopes,
                a0 == old(self).arena,
                self.arena.scopes@.len() == a0.scopes@.len(),
                use_declaration < t@.len(),
                list < t@.len(),
                use_list_ok(t@, list as int, 0),
                num_children == t@[list as int].children@.len(),
                k <= num_children,
                use_list_ok(t@, list as int, k as int),
                use_defined(a0, self.arena, t@, s, use_declaration, *visibility, prefix_names(t@, list as int, k as int)),
            decreases num_children - k,
        {
            proof {
                assert(node_ok(t@, list as int));
                assert(child_ok(t@, list as int, k as int));
            }
            let c = t.children_of(list)[k];
            let ghost mid = self.arena;
            if t.is_named(c) {
                self.visit_use_clause(t, visibility, use_declaration, c);
                proof {
                    lemma_use_defined_trans(
                        a0,
                        mid,
                        self.arena,
                        t@,
                        s,
                        use_declaration,
                        *visibility,
                        prefix_names(t@, list as int, k as int),
                        use_clause_names(t@, c as int),
                    );
                    lemma_prefix_names_step(t@, list as int, k as int);
                }
            } else {
                proof {
                    lemma_prefix_names_step(t@, list as int, k as int);
                    assert(prefix_names(t@, list as int, k as int + 1) =~= prefix_names(
                        t@,
                        list as int,
                        k as int,
                    ));
                }
            }
            k = k + 1;
        }
    }
}

/// The names the first `k` entries of a braced list define, flattened in
/// source order.
pub open spec fn prefix_names(ns: Seq<SyntaxNode>, d: int, k: int) -> Seq<usize>
    decreases ns.len() - d, 0int, k,
    when tree_wf(ns) && 0 <= d < ns.len()
    via prefix_names_decreases
{
    if k <= 0 || k > ns[d].children@.len() {
        Seq::empty()
    } else {
        let c = ns[d].children@[k - 1] as int;
        let tail = if ns[c].named {
            use_clause_names(ns, c)
        } else {
            Seq::empty()
        };
        prefix_names(ns, d, k - 1) + tail
    }
}

#[via_fn]
proof fn prefix_names_decreases(ns: Seq<SyntaxNode>, d: int, k: int) {
    if 0 < k <= ns[d].children@.len() {
        assert(node_ok(ns, d));
        assert(child_ok(ns, d, k - 1));
    }
}

/// One step of prefix flattening appends the `k`th entry's names.
proof fn lemma_prefix_names_step(ns: Seq<SyntaxNode>, d: int, k: int)
    requires
        tree_wf(ns),
        0 <= d < ns.len(),
        0 <= k < ns[d].children@.len(),
    ensures
        ({
            let c = ns[d].children@[k] as int;
            let tail = if ns[c].named {
                use_clause_names(ns, c)
            } else {
                Seq::<usize>::empty()
            };
            prefix_names(ns, d, k + 1) == prefix_names(ns, d, k) + tail
        }),
{
    assert(node_ok(ns, d));
    assert(child_ok(ns, d, k));
}

/// An unchanged store satisfies the flattening relation for no names.
proof fn lemma_use_nothing(
    a0: AllArenas,
    ns: Seq<SyntaxNode>,
    s: int,
    decl: usize,
    vis: Visibility,
)
    ensures
        use_defined(a0, a0, ns, s, decl, vis, Seq::empty()),
{
}

/// One non-discard definition satisfies the flattening relation for that
/// single name; a discard name was skipped and yields the empty relation.
proof fn lemma_use_leaf(
    a0: AllArenas,
    a: AllArenas,
    ns: Seq<SyntaxNode>,
    s: int,
    decl: usize,
    vis: Visibility,
    m: usize,
)
    requires
        0 <= s < a0.scopes@.len(),
        is_discard(ns, m as int) ==> a == a0,
        !is_discard(ns, m as int) ==> exists|dup: Visibility|
            vis_eq(dup, vis) && #[trigger] defined(
                a0,
                a,
                ns,
                s,
                DefinitionKind::Use,
                dup,
                m,
                decl,
            ),
    ensures
        use_defined(a0, a, ns, s, decl, vis, leaf_name(ns, m as int)),
{
    if is_discard(ns, m as int) {
        lemma_use_nothing(a0, ns, s, decl, vis);
    } else {
        let dup = choose|dup: Visibility|
            vis_eq(dup, vis) && #[trigger] defined(
                a0,
                a,
                ns,
                s,
                DefinitionKind::Use,
                dup,
                m,
                decl,
            );
        assert(a0.definitions@.len() == a0.definitions.len());
        assert(a0.variables@.len() == a0.variables.len());
        assert(a0.scopes@[s].variables@.len() == a0.scopes@[s].variables.len());
        let names = leaf_name(ns, m as int);
        assert(names.len() == 1);
        assert(names[0] == m);
        let d0 = a0.definitions@.len() as int;
        let v0 = a0.variables@.len() as int;
        assert(a.definitions@[d0].kind == DefinitionKind::Use);
        assert(a.variables@[v0].scope == s);
    }
}



/// Shape that the walk expects of one node: each declaration construct
/// carries the fields its kind promises, and its leading visibility
/// modifier, where one stands, is well formed. A missing field is a
/// grammar-contract violation, not an input error.
pub open spec fn shape_ok(ns: Seq<SyntaxNode>, n: int) -> bool {
    let kind = ns[n].kind;
    if kind == SyntaxKind::StructItem || kind == SyntaxKind::ModItem || kind
        == SyntaxKind::FunctionItem || kind == SyntaxKind::TypeItem || kind
        == SyntaxKind::UnionItem || kind == SyntaxKind::EnumItem || kind == SyntaxKind::ConstItem
        || kind == SyntaxKind::StaticItem || kind == SyntaxKind::TraitItem || kind
        == SyntaxKind::ExternCrateDeclaration {
        &&& spec_child_by_field(ns, n, FieldName::Name) is Some
        &&& item_vis_ok(ns, n)
    } else if kind == SyntaxKind::MacroDefinition {
        spec_child_by_field(ns, n, FieldName::Name) is Some
    } else if kind == SyntaxKind::UseDeclaration {
        &&& spec_child_by_field(ns, n, FieldName::Argument) is Some
        &&& use_clause_ok(ns, spec_child_by_field(ns, n, FieldName::Argument)->Some_0 as int)
        &&& item_vis_ok(ns, n)
    } else if kind == SyntaxKind::LetDeclaration {
        spec_child_by_field(ns, n, FieldName::Pattern) is Some
    } else if kind == SyntaxKind::ScopedIdentifier || kind == SyntaxKind::ScopedTypeIdentifier {
        scoped_shape_ok(ns, n)
    } else if kind == SyntaxKind::Identifier {
        &&& n > 0
        &&& (ns[ns[n].parent as int].kind == SyntaxKind::EnumVariant ==> spec_child_by_field(
            ns,
            ns[n].parent as int,
            FieldName::Name,
        ) is Some)
    } else {
        true
    }
}

/// Shape of a whole subtree: every node is well shaped and no nested node
/// reopens a whole source unit.
pub open spec fn subtree_ok(ns: Seq<SyntaxNode>, n: int) -> bool
    decreases ns.len() - n,
    when tree_wf(ns) && 0 <= n < ns.len()
    via subtree_ok_decreases
{
    &&& shape_ok(ns, n)
    &&& forall|k: int|
        0 <= k < ns[n].children@.len() ==> ({
            let c = (#[trigger] ns[n].children@[k]) as int;
            ns[c].kind != SyntaxKind::SourceFile && subtree_ok(ns, c)
        })
}

#[via_fn]
proof fn subtree_ok_decreases(ns: Seq<SyntaxNode>, n: int) {
    assert forall|k: int| 0 <= k < ns[n].children@.len() implies n < (#[trigger] ns[n].children@[k]) < ns.len() by {
        assert(node_ok(ns, n));
        assert(child_ok(ns, n, k));
    }
}

/// Kinds the walk merely descends through: they declare nothing, use no
/// name, and open no scope.
pub open spec fn neutral_kind(kind: SyntaxKind) -> bool {
    match kind {
        SyntaxKind::SourceFile => false,
        SyntaxKind::StructItem => false,
        SyntaxKind::ModItem => false,
        SyntaxKind::FunctionItem => false,
        SyntaxKind::ExternCrateDeclaration => false,
        SyntaxKind::UseDeclaration => false,
        SyntaxKind::TypeItem => false,
        SyntaxKind::UnionItem => false,
        SyntaxKind::EnumItem => false,
        SyntaxKind::ConstItem => false,
        SyntaxKind::StaticItem => false,
        SyntaxKind::TraitItem => false,
        SyntaxKind::MacroDefinition => false,
        SyntaxKind::LetDeclaration => false,
        SyntaxKind::Identifier => false,
        SyntaxKind::TypeIdentifier => false,
        SyntaxKind::ScopedIdentifier => false,
        SyntaxKind::ScopedTypeIdentifier => false,
        SyntaxKind::ArrowSeparatedPair => false,
        _ => true,
    }
}

/// A subtree with no declaration, no usage, and no scope anywhere among its
/// named nodes: walking it changes nothing.
pub open spec fn neutral_subtree(ns: Seq<SyntaxNode>, n: int) -> bool
    decreases ns.len() - n,
    when tree_wf(ns) && 0 <= n < ns.len()
    via neutral_subtree_decreases
{
    &&& neutral_kind(ns[n].kind)
    &&& forall|k: int|
        0 <= k < ns[n].children@.len() ==> ({
            let c = (#[trigger] ns[n].children@[k]) as int;
            ns[c].named ==> neutral_subtree(ns, c)
        })
}

#[via_fn]
proof fn neutral_subtree_decreases(ns: Seq<SyntaxNode>, n: int) {
    assert forall|k: int| 0 <= k < ns[n].children@.len() implies n < (#[trigger] ns[n].children@[k]) < ns.len() by {
        assert(node_ok(ns, n));
        assert(child_ok(ns, n, k));
    }
}

/// Every named child of `n` roots a neutral subtree.
pub open spec fn neutral_children(ns: Seq<SyntaxNode>, n: int) -> bool {
    forall|k: int|
        0 <= k < ns[n].children@.len() ==> ({
            let c = (#[trigger] ns[n].children@[k]) as int;
            ns[c].named ==> neutral_subtree(ns, c)
        })
}

/// No named node of the subtree at `n`, including `n` itself, has the given
/// kind.
pub open spec fn no_kind_in(ns: Seq<SyntaxNode>, n: int, kind: SyntaxKind) -> bool
    decreases ns.len() - n,
    when tree_wf(ns) && 0 <= n < ns.len()
    via no_kind_in_decreases
{
    &&& ns[n].kind != kind
    &&& forall|k: int|
        0 <= k < ns[n].children@.len() ==> ({
            let c = (#[trigger] ns[n].children@[k]) as int;
            ns[c].named ==> no_kind_in(ns, c, kind)
        })
}

#[via_fn]
proof fn no_kind_in_decreases(ns: Seq<SyntaxNode>, n: int, kind: SyntaxKind) {
    assert forall|k: int| 0 <= k < ns[n].children@.len() implies n < (#[trigger] ns[n].children@[k]) < ns.len() by {
        assert(node_ok(ns, n));
        assert(child_ok(ns, n, k));
    }
}

/// The definition kind a declaring construct registers, or `None` for a
/// construct that declares nothing by itself.
pub open spec fn decl_kind_of(kind: SyntaxKind) -> Option<DefinitionKind> {
    match kind {
        SyntaxKind::StructItem => Some(DefinitionKind::Struct),
        SyntaxKind::ModItem => Some(DefinitionKind::Module),
        SyntaxKind::FunctionItem => Some(DefinitionKind::Function),
        SyntaxKind::TypeItem => Some(DefinitionKind::TypeAlias),
        SyntaxKind::UnionItem => Some(DefinitionKind::Union),
        SyntaxKind::EnumItem => Some(DefinitionKind::Enum),
        SyntaxKind::ConstItem => Some(DefinitionKind::Const),
        SyntaxKind::StaticItem => Some(DefinitionKind::Static),
        SyntaxKind::TraitItem => Some(DefinitionKind::Trait),
        SyntaxKind::MacroDefinition => Some(DefinitionKind::Macro),
        SyntaxKind::ExternCrateDeclaration => Some(DefinitionKind::ExternCrateDeclaration),
        _ => None,
    }
}

/// The node a declaring construct declares its name at: its alias where one
/// stands, else its name field.
pub open spec fn decl_name_node(ns: Seq<SyntaxNode>, n: int) -> Option<usize> {
    if ns[n].kind == SyntaxKind::ExternCrateDeclaration {
        match spec_child_by_field(ns, n, FieldName::Alias) {
            Some(alias) => Some(alias),
            None => spec_child_by_field(ns, n, FieldName::Name),
        }
    } else {
        spec_child_by_field(ns, n, FieldName::Name)
    }
}

/// What walking one declaring construct guarantees: the construct's
/// definition and its variable stand at the first store positions the walk
/// allocated, with the matching kind, name node and home scope.
pub open spec fn declared_here(
    z0: ScopeAnalyzer,
    z: ScopeAnalyzer,
    ns: Seq<SyntaxNode>,
    n: int,
) -> bool {
    let s = z0.current_scope->Some_0 as int;
    let d0 = z0.arena.definitions@.len() as int;
    let v0 = z0.arena.variables@.len() as int;
    match decl_name_node(ns, n) {
        Some(name_node) => !is_discard(ns, name_node as int) ==> ({
            &&& z.arena.definitions@.len() >= d0 + 1
            &&& z.arena.definitions@[d0].kind == decl_kind_of(ns[n].kind)->Some_0
            &&& z.arena.definitions@[d0].name == name_node
            &&& z.arena.definitions@[d0].node == n
            &&& z.arena.variables@.len() >= v0 + 1
            &&& z.arena.variables@[v0].name@ == ns[name_node as int].text@
            &&& z.arena.variables@[v0].definition as int == d0
            &&& z.arena.variables@[v0].scope as int == s
        }),
        None => true,
    }
}

/// The stores only grow: nothing already recorded changes identity. A
/// definition is immutable; a variable keeps its name, declaration and home
/// scope; a reference keeps its node, origin and role, and once resolved is
/// never cleared or changed; a scope keeps its kind, node and parent.
pub open spec fn grown(a0: AllArenas, a: AllArenas) -> bool {
    &&& a.definitions@.len() >= a0.definitions@.len()
    &&& forall|j: int| 0 <= j < a0.definitions@.len() ==> a.definitions@[j] == a0.definitions@[j]
    &&& a.variables@.len() >= a0.variables@.len()
    &&& forall|j: int|
        0 <= j < a0.variables@.len() ==> ({
            let v = #[trigger] a.variables@[j];
            &&& v.name == a0.variables@[j].name
            &&& v.definition == a0.variables@[j].definition
            &&& v.scope == a0.variables@[j].scope
        })
    &&& a.references@.len() >= a0.references@.len()
    &&& forall|j: int|
        0 <= j < a0.references@.len() ==> ({
            let r = #[trigger] a.references@[j];
            &&& r.node == a0.references@[j].node
            &&& r.scope == a0.references@[j].scope
            &&& r.usage_kind == a0.references@[j].usage_kind
            &&& (a0.references@[j].resolved is Some ==> r.resolved == a0.references@[j].resolved)
        })
    &&& a.scopes@.len() >= a0.scopes@.len()
    &&& forall|j: int|
        0 <= j < a0.scopes@.len() ==> ({
            let sc = #[trigger] a.scopes@[j];
            &&& sc.kind == a0.scopes@[j].kind
            &&& sc.node == a0.scopes@[j].node
            &&& sc.upper == a0.scopes@[j].upper
        })
}

/// Growth composes.
proof fn lemma_grown_trans(a0: AllArenas, a1: AllArenas, a2: AllArenas)
    requires
        grown(a0, a1),
        grown(a1, a2),
    ensures
        grown(a0, a2),
{
    assert forall|j: int| 0 <= j < a0.definitions@.len() implies a2.definitions@[j]
        == a0.definitions@[j] by {
        assert(a1.definitions@[j] == a0.definitions@[j]);
    }
    assert forall|j: int| 0 <= j < a0.variables@.len() implies ({
        let v = #[trigger] a2.variables@[j];
        &&& v.name == a0.variables@[j].name
        &&& v.definition == a0.variables@[j].definition
        &&& v.scope == a0.variables@[j].scope
    }) by {
        assert(a1.variables@[j].name == a0.variables@[j].name);
    }
    assert forall|j: int| 0 <= j < a0.references@.len() implies ({
        let r = #[trigger] a2.references@[j];
        &&& r.node == a0.references@[j].node
        &&& r.scope == a0.references@[j].scope
        &&& r.usage_kind == a0.references@[j].usage_kind
        &&& (a0.references@[j].resolved is Some ==> r.resolved == a0.references@[j].resolved)
    }) by {
        assert(a1.references@[j].node == a0.references@[j].node);
    }
    assert forall|j: int| 0 <= j < a0.scopes@.len() implies ({
        let sc = #[trigger] a2.scopes@[j];
        &&& sc.kind == a0.scopes@[j].kind
        &&& sc.node == a0.scopes@[j].node
        &&& sc.upper == a0.scopes@[j].upper
    }) by {
        assert(a1.scopes@[j].kind == a0.scopes@[j].kind);
    }
}

/// Recording a declaration only grows the stores.
proof fn lemma_defined_grown(
    a0: AllArenas,
    a: AllArenas,
    ns: Seq<SyntaxNode>,
    s: int,
    kind: DefinitionKind,
    vis: Visibility,
    name: usize,
    node: usize,
)
    requires
        defined(a0, a, ns, s, kind, vis, name, node),
    ensures
        grown(a0, a),
{
}

/// Recording a usage only grows the stores.
proof fn lemma_referenced_grown(
    a0: AllArenas,
    a: AllArenas,
    s: int,
    usage_kind: UsageKind,
    node: usize,
)
    requires
        referenced(a0, a, s, usage_kind, node),
    ensures
        grown(a0, a),
{
}

/// Flattening an import only grows the stores.
proof fn lemma_use_defined_grown(
    a0: AllArenas,
    a: AllArenas,
    ns: Seq<SyntaxNode>,
    s: int,
    decl: usize,
    vis: Visibility,
    names: Seq<usize>,
)
    requires
        use_defined(a0, a, ns, s, decl, vis, names),
    ensures
        grown(a0, a),
{
}

/// Opening a scope only grows the stores.
proof fn lemma_opened_grown(
    a0: AllArenas,
    a: AllArenas,
    kind: ScopeKind,
    node: usize,
    upper: usize,
)
    requires
        scope_opened(a0, a, kind, node, upper),
    ensures
        grown(a0, a),
{
}

/// Closing a scope only grows the stores: in particular, a resolved
/// reference stays resolved to the same variable, since only unresolved
/// references ever wait in a queue.
proof fn lemma_closed_grown(a0: AllArenas, a: AllArenas, ns: Seq<SyntaxNode>, s: int)
    requires
        state_ok(a0, ns),
        0 <= s < a0.scopes@.len(),
        closed_scope(a0, a, ns, s),
    ensures
        grown(a0, a),
{
    let p = a0.scopes@[s].pre_resolved@;
    assert forall|j: int| 0 <= j < a0.references@.len() implies ({
        let r = #[trigger] a.references@[j];
        &&& r.node == a0.references@[j].node
        &&& r.scope == a0.references@[j].scope
        &&& r.usage_kind == a0.references@[j].usage_kind
        &&& (a0.references@[j].resolved is Some ==> r.resolved == a0.references@[j].resolved)
    }) by {
        if p.contains(j as usize) {
            let x = choose|x: int| 0 <= x < p.len() && p[x] == j as usize;
            assert(a0.references@[a0.scopes@[s].pre_resolved@[x] as int].resolved is None);
            assert(a0.references@.len() == a0.references.len());
            assert(p[x] as int == j);
        } else {
            assert(a.references@[j] == a0.references@[j]);
        }
    }
    let u_opt = a0.scopes@[s].upper;
    assert forall|j: int| 0 <= j < a0.scopes@.len() implies ({
        let sc = #[trigger] a.scopes@[j];
        &&& sc.kind == a0.scopes@[j].kind
        &&& sc.node == a0.scopes@[j].node
        &&& sc.upper == a0.scopes@[j].upper
    }) by {
        if j != s && (u_opt is None || j != u_opt->Some_0 as int) {
            assert(a.scopes@[j] == a0.scopes@[j]);
        }
    }
}

/// The effect of a scoped name on the analyzer: where the path leads with a
/// plain name, exactly one reference to that leading name is recorded in
/// the current scope, classified by the whole path's position; where it
/// does not, nothing happens. Trailing segments are never looked up.
pub open spec fn scoped_reference_effect(
    z0: ScopeAnalyzer,
    z: ScopeAnalyzer,
    ns: Seq<SyntaxNode>,
    n: int,
) -> bool {
    match spec_leading_name_of_scoped(ns, n) {
        None => z == z0,
        Some(m) => {
            &&& referenced(
                z0.arena,
                z.arena,
                z0.current_scope->Some_0 as int,
                spec_usage_kind(ns, n),
                m,
            )
            &&& z.current_scope == z0.current_scope
            &&& z.scopes == z0.scopes
        },
    }
}

impl ScopeAnalyzer {
    /// Flattens one import declaration: reads its visibility and registers
    /// a Use definition for each name its argument clause brings in.
    fn visit_use_declaration(&mut self, t: &SyntaxTree, use_declaration: usize)
        requires
            t.wf(),
            analyzer_wf(*old(self), t@),
            old(self).current_scope is Some,
            use_declaration < t@.len(),
            spec_child_by_field(t@, use_declaration as int, FieldName::Argument) is Some,
            use_clause_ok(
                t@,
                spec_child_by_field(t@, use_declaration as int, FieldName::Argument)->Some_0 as int,
            ),
            item_vis_ok(t@, use_declaration as int),
        ensures
            analyzer_wf(*final(self), t@),
            final(self).current_scope == old(self).current_scope,
            final(self).scopes == old(self).scopes,
            final(self).arena.scopes@.len() == old(self).arena.scopes@.len(),
            exists|vis: Visibility|
                item_vis_matches(t@, use_declaration as int, vis) && #[trigger] use_defined(
                    old(self).arena,
                    final(self).arena,
                    t@,
                    old(self).current_scope->Some_0 as int,
                    use_declaration,
                    vis,
                    use_clause_names(
                        t@,
                        spec_child_by_field(
                            t@,
                            use_declaration as int,
                            FieldName::Argument,
                        )->Some_0 as int,
                    ),
                ),
    {
        let ghost a0 = self.arena;
        let ghost s = self.current_scope->Some_0 as int;
        let visibility = Visibility::from_item(t, use_declaration);
        let ghost gvis = visibility;
        let argument = t.child_by_field(use_declaration, FieldName::Argument).unwrap();
        proof {
            lemma_child_by_field_range(t@, use_declaration as int, FieldName::Argument);
        }
        self.visit_use_clause(t, &visibility, use_declaration, argument);
        proof {
            assert(item_vis_matches(t@, use_declaration as int, gvis) && use_defined(
                a0,
                self.arena,
                t@,
                s,
                use_declaration,
                gvis,
                use_clause_names(t@, argument as int),
            ));
        }
    }
}



impl ScopeAnalyzer {
    /// Walks the subtree at `node`, growing the scope graph. A whole source
    /// unit opens the root scope, walks its items, and closes it; when this
    /// returns, every scope the walk opened has been closed and every
    /// reference either resolved or left unresolved for good.
    pub fn visit(&mut self, t: &SyntaxTree, node: usize)
        requires
            t.wf(),
            analyzer_wf(*old(self), t@),
            node < t@.len(),
            subtree_ok(t@, node as int),
            t@[node as int].kind == SyntaxKind::SourceFile || old(self).current_scope is Some,
        ensures
            analyzer_wf(*final(self), t@),
            final(self).current_scope == (if t@[node as int].kind == SyntaxKind::SourceFile {
                None::<usize>
            } else {
                old(self).current_scope
            }),
            grown(old(self).arena, final(self).arena),
            neutral_subtree(t@, node as int) ==> *final(self) == *old(self),
            (t@[node as int].kind == SyntaxKind::Identifier && spec_is_enum_variant_name(
                t@,
                node as int,
            )) ==> *final(self) == *old(self),
            t@[node as int].kind == SyntaxKind::ScopedTypeIdentifier ==> scoped_reference_effect(
                *old(self),
                *final(self),
                t@,
                node as int,
            ),
            (t@[node as int].kind == SyntaxKind::ScopedIdentifier && no_kind_in(
                t@,
                node as int,
                SyntaxKind::TypeArguments,
            )) ==> scoped_reference_effect(*old(self), *final(self), t@, node as int),
            t@[node as int].kind == SyntaxKind::SourceFile ==> ({
                let id = old(self).arena.scopes@.len() as int;
                &&& final(self).arena.scopes@.len() > id
                &&& final(self).arena.scopes@[id].kind == ScopeKind::Root
                &&& final(self).arena.scopes@[id].node == node
                &&& final(self).arena.scopes@[id].upper is None
                &&& final(self).arena.scopes@[id].pre_resolved@ == Seq::<usize>::empty()
            }),
            (t@[node as int].kind == SyntaxKind::SourceFile && neutral_children(
                t@,
                node as int,
            )) ==> ({
                let id = old(self).arena.scopes@.len() as int;
                &&& final(self).arena.scopes@.len() == id + 1
                &&& final(self).arena.definitions@.len() == old(self).arena.definitions@.len()
                &&& final(self).arena.variables@.len() == old(self).arena.variables@.len()
                &&& final(self).arena.references@.len() == old(self).arena.references@.len()
                &&& final(self).arena.scopes@[id].variables@ == Seq::<usize>::empty()
                &&& final(self).arena.scopes@[id].references@ == Seq::<usize>::empty()
                &&& final(self).arena.scopes@[id].pre_resolved@ == Seq::<usize>::empty()
                &&& final(self).arena.scopes@[id].through@ == Seq::<usize>::empty()
                &&& final(self).arena.scopes@[id].child_scopes@ == Seq::<usize>::empty()
            }),
            (decl_kind_of(t@[node as int].kind) is Some) ==> declared_here(
                *old(self),
                *final(self),
                t@,
                node as int,
            ),
            (t@[node as int].kind == SyntaxKind::UseDeclaration) ==> exists|vis: Visibility|
                item_vis_matches(t@, node as int, vis) && #[trigger] use_defined(
                    old(self).arena,
                    final(self).arena,
                    t@,
                    old(self).current_scope->Some_0 as int,
                    node,
                    vis,
                    use_clause_names(
                        t@,
                        spec_child_by_field(t@, node as int, FieldName::Argument)->Some_0 as int,
                    ),
                ),
            walk_rel(t@, node as int, None::<usize>, None::<SyntaxKind>, *old(self), *final(self)),
        decreases t@.len() - node, 1int,
    {
        self.visit_in(t, node, None, None)
    }

    /// One step of the walk, carrying the traversal context explicitly: the
    /// binding construct whose left-hand side is being walked, if any, and
    /// the node kind the walk is restricted to descend for, if any.
    #[verifier::rlimit(100)]
    fn visit_in(
        &mut self,
        t: &SyntaxTree,
        node: usize,
        lhs: Option<usize>,
        restrict: Option<SyntaxKind>,
    )
        requires
            t.wf(),
            analyzer_wf(*old(self), t@),
            node < t@.len(),
            subtree_ok(t@, node as int),
            t@[node as int].kind == SyntaxKind::SourceFile || old(self).current_scope is Some,
            t@[node as int].kind == SyntaxKind::SourceFile ==> lhs is None && restrict is None,
            lhs is Some ==> lhs->Some_0 < t@.len(),
        ensures
            analyzer_wf(*final(self), t@),
            final(self).current_scope == (if t@[node as int].kind == SyntaxKind::SourceFile {
                None::<usize>
            } else {
                old(self).current_scope
            }),
            grown(old(self).arena, final(self).arena),
            neutral_subtree(t@, node as int) ==> *final(self) == *old(self),
            (restrict is None && t@[node as int].kind == SyntaxKind::Identifier
                && spec_is_enum_variant_name(t@, node as int)) ==> *final(self) == *old(self),
            (restrict is Some && no_kind_in(t@, node as int, restrict->Some_0)) ==> *final(self)
                == *old(self),
            (restrict is None && t@[node as int].kind == SyntaxKind::ScopedTypeIdentifier)
                ==> scoped_reference_effect(*old(self), *final(self), t@, node as int),
            (restrict is None && t@[node as int].kind == SyntaxKind::ScopedIdentifier
                && no_kind_in(t@, node as int, SyntaxKind::TypeArguments))
                ==> scoped_reference_effect(*old(self), *final(self), t@, node as int),
            (restrict is None && t@[node as int].kind == SyntaxKind::SourceFile) ==> ({
                let id = old(self).arena.scopes@.len() as int;
                &&& final(self).arena.scopes@.len() > id
                &&& final(self).arena.scopes@[id].kind == ScopeKind::Root
                &&& final(self).arena.scopes@[id].node == node
                &&& final(self).arena.scopes@[id].upper is None
                &&& final(self).arena.scopes@[id].pre_resolved@ == Seq::<usize>::empty()
            }),
            (restrict is None && t@[node as int].kind == SyntaxKind::SourceFile
                && neutral_children(t@, node as int)) ==> ({
                let id = old(self).arena.scopes@.len() as int;
                &&& final(self).arena.scopes@.len() == id + 1
                &&& final(self).arena.definitions@.len() == old(self).arena.definitions@.len()
                &&& final(self).arena.variables@.len() == old(self).arena.variables@.len()
                &&& final(self).arena.references@.len() == old(self).arena.references@.len()
                &&& final(self).arena.scopes@[id].variables@ == Seq::<usize>::empty()
                &&& final(self).arena.scopes@[id].references@ == Seq::<usize>::empty()
                &&& final(self).arena.scopes@[id].pre_resolved@ == Seq::<usize>::empty()
                &&& final(self).arena.scopes@[id].through@ == Seq::<usize>::empty()
                &&& final(self).arena.scopes@[id].child_scopes@ == Seq::<usize>::empty()
            }),
            (restrict is None && decl_kind_of(t@[node as int].kind) is Some) ==> declared_here(
                *old(self),
                *final(self),
                t@,
                node as int,
            ),
            (restrict is None && t@[node as int].kind == SyntaxKind::UseDeclaration) ==> exists|vis: Visibility|
                item_vis_matches(t@, node as int, vis) && #[trigger] use_defined(
                    old(self).arena,
                    final(self).arena,
                    t@,
                    old(self).current_scope->Some_0 as int,
                    node,
                    vis,
                    use_clause_names(
                        t@,
                        spec_child_by_field(t@, node as int, FieldName::Argument)->Some_0 as int,
                    ),
                ),
            walk_rel(t@, node as int, lhs, restrict, *old(self), *final(self)),
        decreases t@.len() - node, 1int,
    {
        let ghost z0 = *self;
        if let Some(restricted_kind) = restrict {
            if t.kind(node) != restricted_kind {
                proof {
                    if no_kind_in(t@, node as int, restricted_kind) {
                        lemma_no_kind_children(t@, node as int, restricted_kind);
                    }
                    if neutral_subtree(t@, node as int) {
                        lemma_neutral_children(t@, node as int);
                    }
                }
                self.visit_children_in(t, node, lhs, restrict);
                proof {
                    assert(walk_rel(t@, node as int, lhs, restrict, z0, *self));
                }
                return ;
            }
        }
        match t.kind(node) {
            SyntaxKind::SourceFile => {
                let ghost id = self.arena.scopes@.len() as int;
                let scope = Scope::new_root(&mut self.arena, t, node);
                self.enter_scope(scope);
                let ghost z1 = *self;
                self.visit_children_in(t, node, lhs, None);
                proof {
                    assert(self.current_scope == Some(scope));
                }
                let ghost z2 = *self;
                self.close(t, scope);
                proof {
                    let zc = *self;
                    assert(grown(z0.arena, z1.arena));
                    lemma_grown_trans(z0.arena, z1.arena, z2.arena);
                    lemma_closed_grown(z2.arena, zc.arena, t@, scope as int);
                    lemma_grown_trans(z0.arena, z2.arena, zc.arena);
                    if neutral_children(t@, node as int) {
                        assert(z2 == z1);
                        assert(z2.arena.scopes@[id].pre_resolved@ == Seq::<usize>::empty());
                        assert(unmatched_of(z2.arena, t@, id, Seq::<usize>::empty()) =~= Seq::<
                            usize,
                        >::empty());
                        assert(zc.arena.scopes@[id].through@ =~= Seq::<usize>::empty());
                    }
                    assert(z0.arena.scopes@.len() == z0.arena.scopes.len());
                    assert(scope == z0.arena.scopes@.len() as usize);
                    assert(root_opened(z0, z1, node));
                    assert(walked_children(t@, node as int, lhs, None::<SyntaxKind>, 0, z1, z2));
                    assert(scope_closed(t@, z2, *self, scope));
                    lemma_walk_rel_source(t@, node as int, lhs, z0, z1, z2, *self);
                    assert(restrict is None);
                    assert(walk_rel(t@, node as int, lhs, restrict, z0, *self));
                }
            },
            SyntaxKind::StructItem => {
                proof {
                    lemma_subtree_children(t@, node as int);
                }
                let visibility = Visibility::from_item(t, node);
                let ghost gvis = visibility;
                let name = t.child_by_field(node, FieldName::Name).unwrap();
                proof {
                    lemma_child_by_field_range(t@, node as int, FieldName::Name);
                }
                self.define(t, DefinitionKind::Struct, visibility, name, node);
                let ghost z1 = *self;
                self.visit_children_except_field(t, node, FieldName::Name, lhs);
                proof {
                    lemma_define_grown_step(z0, z1, t@, name);
                    lemma_grown_trans(z0.arena, z1.arena, self.arena);
                    if !is_discard(t@, name as int) {
                        lemma_some_vis_defined(t@, node as int, z0, z1, name, gvis);
                    }
                    assert(declared_rel(t@, node as int, z0, z1));
                    assert(walked_children_except(t@, node as int, FieldName::Name, lhs, 0, z1, *self));
                    lemma_walk_rel_plain_decl(t@, node as int, lhs, restrict, z0, z1, *self);
                }
            },
            SyntaxKind::ModItem => {
                proof {
                    lemma_subtree_children(t@, node as int);
                }
                let visibility = Visibility::from_item(t, node);
                let ghost gvis = visibility;
                let name = t.child_by_field(node, FieldName::Name).unwrap();
                proof {
                    lemma_child_by_field_range(t@, node as int, FieldName::Name);
                }
                self.define(t, DefinitionKind::Module, visibility, name, node);
                let ghost z1 = *self;
                let upper = self.current_scope.unwrap();
                let scope = Scope::new_module(&mut self.arena, t, node, upper);
                self.enter_scope(scope);
                let ghost z2 = *self;
                self.visit_children_except_field(t, node, FieldName::Name, lhs);
                proof {
                    assert(self.current_scope == Some(scope));
                }
                let ghost z3 = *self;
                self.close(t, scope);
                proof {
                    let zc = *self;
                    lemma_define_grown_step(z0, z1, t@, name);
                    lemma_opened_grown(z1.arena, z2.arena, ScopeKind::Module, node, upper);
                    lemma_grown_trans(z0.arena, z1.arena, z2.arena);
                    lemma_grown_trans(z0.arena, z2.arena, z3.arena);
                    lemma_closed_grown(z3.arena, zc.arena, t@, scope as int);
                    lemma_grown_trans(z0.arena, z3.arena, zc.arena);
                    assert(zc.current_scope == z3.arena.scopes@[scope as int].upper);
                    if !is_discard(t@, name as int) {
                        lemma_some_vis_defined(t@, node as int, z0, z1, name, gvis);
                    }
                    assert(declared_rel(t@, node as int, z0, z1));
                    assert(z1.arena.scopes@.len() == z1.arena.scopes.len());
                    assert(scope == z1.arena.scopes@.len() as usize);
                    assert(nested_opened(z1, z2, ScopeKind::Module, node));
                    assert(walked_children_except(t@, node as int, FieldName::Name, lhs, 0, z2, z3));
                    assert(scope_closed(t@, z3, *self, scope));
                    lemma_walk_rel_scoped_decl(t@, node as int, lhs, restrict, z0, z1, z2, z3, *self);
                }
            },
            SyntaxKind::FunctionItem => {
                proof {
                    lemma_subtree_children(t@, node as int);
                }
                let visibility = Visibility::from_item(t, node);
                let ghost gvis = visibility;
                let name = t.child_by_field(node, FieldName::Name).unwrap();
                proof {
                    lemma_child_by_field_range(t@, node as int, FieldName::Name);
                }
                self.define(t, DefinitionKind::Function, visibility, name, node);
                let ghost z1 = *self;
                let upper = self.current_scope.unwrap();
                let scope = Scope::new_function(&mut self.arena, t, node, upper);
                self.enter_scope(scope);
                let ghost z2 = *self;
                self.visit_children_except_field(t, node, FieldName::Name, lhs);
                proof {
                    assert(self.current_scope == Some(scope));
                }
                let ghost z3 = *self;
                self.close(t, scope);
                proof {
                    let zc = *self;
                    lemma_define_grown_step(z0, z1, t@, name);
                    lemma_opened_grown(z1.arena, z2.arena, ScopeKind::Function, node, upper);
                    lemma_grown_trans(z0.arena, z1.arena, z2.arena);
                    lemma_grown_trans(z0.arena, z2.arena, z3.arena);
                    lemma_closed_grown(z3.arena, zc.arena, t@, scope as int);
                    lemma_grown_trans(z0.arena, z3.arena, zc.arena);
                    assert(zc.current_scope == z3.arena.scopes@[scope as int].upper);
                    if !is_discard(t@, name as int) {
                        lemma_some_vis_defined(t@, node as int, z0, z1, name, gvis);
                    }
                    assert(declared_rel(t@, node as int, z0, z1));
                    assert(z1.arena.scopes@.len() == z1.arena.scopes.len());
                    assert(scope == z1.arena.scopes@.len() as usize);
                    assert(nested_opened(z1, z2, ScopeKind::Function, node));
                    assert(walked_children_except(t@, node as int, FieldName::Name, lhs, 0, z2, z3));
                    assert(scope_closed(t@, z3, *self, scope));
                    lemma_walk_rel_scoped_decl(t@, node as int, lhs, restrict, z0, z1, z2, z3, *self);
                }
            },
            SyntaxKind::ExternCrateDeclaration => {
                proof {
                    lemma_subtree_children(t@, node as int);
                }
                let visibility = Visibility::from_item(t, node);
                let ghost gvis = visibility;
                let name = match t.child_by_field(node, FieldName::Alias) {
                    Some(alias) => {
                        proof {
                            lemma_child_by_field_range(t@, node as int, FieldName::Alias);
                        }
                        alias
                    },
                    None => {
                        let name = t.child_by_field(node, FieldName::Name).unwrap();
                        proof {
                            lemma_child_by_field_range(t@, node as int, FieldName::Name);
                        }
                        name
                    },
                };
                self.define(t, DefinitionKind::ExternCrateDeclaration, visibility, name, node);
                proof {
                    lemma_define_grown_step(z0, *self, t@, name);
                    assert(decl_name_node(t@, node as int) == Some(name));
                    if !is_discard(t@, name as int) {
                        lemma_some_vis_defined(t@, node as int, z0, *self, name, gvis);
                    }
                    assert(declared_rel(t@, node as int, z0, *self));
                    assert(walk_rel(t@, node as int, lhs, restrict, z0, *self));
                }
            },
            SyntaxKind::UseDeclaration => {
                proof {
                    lemma_subtree_children(t@, node as int);
                }
                self.visit_use_declaration(t, node);
                proof {
                    lemma_child_by_field_range(t@, node as int, FieldName::Argument);
                    let vis = choose|vis: Visibility|
                        item_vis_matches(t@, node as int, vis) && #[trigger] use_defined(
                            z0.arena,
                            self.arena,
                            t@,
                            z0.current_scope->Some_0 as int,
                            node,
                            vis,
                            use_clause_names(
                                t@,
                                spec_child_by_field(
                                    t@,
                                    node as int,
                                    FieldName::Argument,
                                )->Some_0 as int,
                            ),
                        );
                    lemma_use_defined_grown(
                        z0.arena,
                        self.arena,
                        t@,
                        z0.current_scope->Some_0 as int,
                        node,
                        vis,
                        use_clause_names(
                            t@,
                            spec_child_by_field(t@, node as int, FieldName::Argument)->Some_0 as int,
                        ),
                    );
                    lemma_some_vis_use_defined(
                        t@,
                        node as int,
                        z0,
                        *self,
                        spec_child_by_field(t@, node as int, FieldName::Argument)->Some_0,
                        vis,
                    );
                    assert(use_decl_rel(t@, node as int, z0, *self));
                    assert(walk_rel(t@, node as int, lhs, restrict, z0, *self));
                }
            },
            SyntaxKind::TypeItem => {
                proof {
                    lemma_subtree_children(t@, node as int);
                }
                let visibility = Visibility::from_item(t, node);
                let ghost gvis = visibility;
                let name = t.child_by_field(node, FieldName::Name).unwrap();
                proof {
                    lemma_child_by_field_range(t@, node as int, FieldName::Name);
                }
                self.define(t, DefinitionKind::TypeAlias, visibility, name, node);
                let ghost z1 = *self;
                self.visit_children_except_field(t, node, FieldName::Name, lhs);
                proof {
                    lemma_define_grown_step(z0, z1, t@, name);
                    lemma_grown_trans(z0.arena, z1.arena, self.arena);
                    if !is_discard(t@, name as int) {
                        lemma_some_vis_defined(t@, node as int, z0, z1, name, gvis);
                    }
                    assert(declared_rel(t@, node as int, z0, z1));
                    assert(walked_children_except(t@, node as int, FieldName::Name, lhs, 0, z1, *self));
                    lemma_walk_rel_plain_decl(t@, node as int, lhs, restrict, z0, z1, *self);
                }
            },
            SyntaxKind::UnionItem => {
                proof {
                    lemma_subtree_children(t@, node as int);
                }
                let visibility = Visibility::from_item(t, node);
                let ghost gvis = visibility;
                let name = t.child_by_field(node, FieldName::Name).unwrap();
                proof {
                    lemma_child_by_field_range(t@, node as int, FieldName::Name);
                }
                self.define(t, DefinitionKind::Union, visibility, name, node);
                let ghost z1 = *self;
                self.visit_children_except_field(t, node, FieldName::Name, lhs);
                proof {
                    lemma_define_grown_step(z0, z1, t@, name);
                    lemma_grown_trans(z0.arena, z1.arena, self.arena);
                    if !is_discard(t@, name as int) {
                        lemma_some_vis_defined(t@, node as int, z0, z1, name, gvis);
                    }
                    assert(declared_rel(t@, node as int, z0, z1));
                    assert(walked_children_except(t@, node as int, FieldName::Name, lhs, 0, z1, *self));
                    lemma_walk_rel_plain_decl(t@, node as int, lhs, restrict, z0, z1, *self);
                }
            },
            SyntaxKind::EnumItem => {
                proof {
                    lemma_subtree_children(t@, node as int);
                }
                let visibility = Visibility::from_item(t, node);
                let ghost gvis = visibility;
                let name = t.child_by_field(node, FieldName::Name).unwrap();
                proof {
                    lemma_child_by_field_range(t@, node as int, FieldName::Name);
                }
                self.define(t, DefinitionKind::Enum, visibility, name, node);
                let ghost z1 = *self;
                self.visit_children_except_field(t, node, FieldName::Name, lhs);
                proof {
                    lemma_define_grown_step(z0, z1, t@, name);
                    lemma_grown_trans(z0.arena, z1.arena, self.arena);
                    if !is_discard(t@, name as int) {
                        lemma_some_vis_defined(t@, node as int, z0, z1, name, gvis);
                    }
                    assert(declared_rel(t@, node as int, z0, z1));
                    assert(walked_children_except(t@, node as int, FieldName::Name, lhs, 0, z1, *self));
                    lemma_walk_rel_plain_decl(t@, node as int, lhs, restrict, z0, z1, *self);
                }
            },
            SyntaxKind::ConstItem => {
                proof {
                    lemma_subtree_children(t@, node as int);
                }
                let visibility = Visibility::from_item(t, node);
                let ghost gvis = visibility;
                let name = t.child_by_field(node, FieldName::Name).unwrap();
                proof {
                    lemma_child_by_field_range(t@, node as int, FieldName::Name);
                }
                self.define(t, DefinitionKind::Const, visibility, name, node);
                let ghost z1 = *self;
                self.visit_children_except_field(t, node, FieldName::Name, lhs);
                proof {
                    lemma_define_grown_step(z0, z1, t@, name);
                    lemma_grown_trans(z0.arena, z1.arena, self.arena);
                    if !is_discard(t@, name as int) {
                        lemma_some_vis_defined(t@, node as int, z0, z1, name, gvis);
                    }
                    assert(declared_rel(t@, node as int, z0, z1));
                    assert(walked_children_except(t@, node as int, FieldName::Name, lhs, 0, z1, *self));
                    lemma_walk_rel_plain_decl(t@, node as int, lhs, restrict, z0, z1, *self);
                }
            },
            SyntaxKind::StaticItem => {
                proof {
                    lemma_subtree_children(t@, node as int);
                }
                let visibility = Visibility::from_item(t, node);
                let ghost gvis = visibility;
                let name = t.child_by_field(node, FieldName::Name).unwrap();
                proof {
                    lemma_child_by_field_range(t@, node as int, FieldName::Name);
                }
                self.define(t, DefinitionKind::Static, visibility, name, node);
                let ghost z1 = *self;
                self.visit_children_except_field(t, node, FieldName::Name, lhs);
                proof {
                    lemma_define_grown_step(z0, z1, t@, name);
                    lemma_grown_trans(z0.arena, z1.arena, self.arena);
                    if !is_discard(t@, name as int) {
                        lemma_some_vis_defined(t@, node as int, z0, z1, name, gvis);
                    }
                    assert(declared_rel(t@, node as int, z0, z1));
                    assert(walked_children_except(t@, node as int, FieldName::Name, lhs, 0, z1, *self));
                    lemma_walk_rel_plain_decl(t@, node as int, lhs, restrict, z0, z1, *self);
                }
            },
            SyntaxKind::TraitItem => {
                proof {
                    lemma_subtree_children(t@, node as int);
                }
                let visibility = Visibility::from_item(t, node);
                let ghost gvis = visibility;
                let name = t.child_by_field(node, FieldName::Name).unwrap();
                proof {
                    lemma_child_by_field_range(t@, node as int, FieldName::Name);
                }
                self.define(t, DefinitionKind::Trait, visibility, name, node);
                let ghost z1 = *self;
                self.visit_children_except_field(t, node, FieldName::Name, lhs);
                proof {
                    lemma_define_grown_step(z0, z1, t@, name);
                    lemma_grown_trans(z0.arena, z1.arena, self.arena);
                    if !is_discard(t@, name as int) {
                        lemma_some_vis_defined(t@, node as int, z0, z1, name, gvis);
                    }
                    assert(declared_rel(t@, node as int, z0, z1));
                    assert(walked_children_except(t@, node as int, FieldName::Name, lhs, 0, z1, *self));
                    lemma_walk_rel_plain_decl(t@, node as int, lhs, restrict, z0, z1, *self);
                }
            },
            SyntaxKind::MacroDefinition => {
                proof {
                    lemma_subtree_children(t@, node as int);
                }
                let name = t.child_by_field(node, FieldName::Name).unwrap();
                proof {
                    lemma_child_by_field_range(t@, node as int, FieldName::Name);
                }
                let visibility = Visibility::Pub;
                let ghost gvis = visibility;
                self.define(t, DefinitionKind::Macro, visibility, name, node);
                let ghost z1 = *self;
                self.visit_children_except_field(t, node, FieldName::Name, lhs);
                proof {
                    lemma_define_grown_step(z0, z1, t@, name);
                    lemma_grown_trans(z0.arena, z1.arena, self.arena);
                    if !is_discard(t@, name as int) {
                        lemma_some_vis_defined(t@, node as int, z0, z1, name, gvis);
                    }
                    assert(declared_rel(t@, node as int, z0, z1));
                    assert(walked_children_except(t@, node as int, FieldName::Name, lhs, 0, z1, *self));
                    lemma_walk_rel_plain_decl(t@, node as int, lhs, restrict, z0, z1, *self);
                }
            },
            SyntaxKind::ScopedTypeIdentifier => {
                proof {
                    lemma_subtree_children(t@, node as int);
                }
                match get_leading_name_node_of_scoped_identifier(t, node) {
                    Some(leading) => {
                        let usage = get_usage_kind(t, node);
                        self.add_reference(t, usage, leading);
                        proof {
                            lemma_referenced_grown(
                                z0.arena,
                                self.arena,
                                z0.current_scope->Some_0 as int,
                                usage,
                                leading,
                            );
                        }
                    },
                    None => {},
                }
                proof {
                    assert(scoped_reference_effect(z0, *self, t@, node as int));
                    assert(walk_rel(t@, node as int, lhs, restrict, z0, *self));
                }
            },
            SyntaxKind::TypeIdentifier => {
                let usage = get_usage_kind(t, node);
                self.add_reference(t, usage, node);
                proof {
                    lemma_referenced_grown(
                        z0.arena,
                        self.arena,
                        z0.current_scope->Some_0 as int,
                        usage,
                        node,
                    );
                    assert(usage_recorded(t@, node as int, node, z0, *self));
                    assert(walk_rel(t@, node as int, lhs, restrict, z0, *self));
                }
            },
            SyntaxKind::LetDeclaration => {
                proof {
                    lemma_subtree_children(t@, node as int);
                }
                let pattern = t.child_by_field(node, FieldName::Pattern).unwrap();
                proof {
                    lemma_child_by_field_range(t@, node as int, FieldName::Pattern);
                    assert(subtree_child_ok(t@, node as int, pattern as int));
                }
                self.visit_in(t, pattern, Some(node), None);
                let ghost z1 = *self;
                self.visit_children_except_field(t, node, FieldName::Pattern, None);
                proof {
                    lemma_grown_trans(z0.arena, z1.arena, self.arena);
                    assert(walk_rel(t@, pattern as int, Some(node), None::<SyntaxKind>, z0, z1));
                    assert(walked_children_except(
                        t@,
                        node as int,
                        FieldName::Pattern,
                        None::<usize>,
                        0,
                        z1,
                        *self,
                    ));
                    lemma_walk_rel_let(t@, node as int, lhs, restrict, z0, z1, *self);
                }
            },
            SyntaxKind::ScopedIdentifier => {
                proof {
                    lemma_subtree_children(t@, node as int);
                }
                match get_leading_name_node_of_scoped_identifier(t, node) {
                    Some(leading) => {
                        let usage = get_usage_kind(t, node);
                        self.add_reference(t, usage, leading);
                        proof {
                            lemma_referenced_grown(
                                z0.arena,
                                self.arena,
                                z0.current_scope->Some_0 as int,
                                usage,
                                leading,
                            );
                        }
                    },
                    None => {},
                }
                let ghost z1 = *self;
                proof {
                    if no_kind_in(t@, node as int, SyntaxKind::TypeArguments) {
                        lemma_no_kind_children(t@, node as int, SyntaxKind::TypeArguments);
                    }
                }
                self.visit_children_in(t, node, lhs, Some(SyntaxKind::TypeArguments));
                proof {
                    lemma_grown_trans(z0.arena, z1.arena, self.arena);
                    assert(scoped_reference_effect(z0, z1, t@, node as int));
                    assert(walked_children(
                        t@,
                        node as int,
                        lhs,
                        Some(SyntaxKind::TypeArguments),
                        0,
                        z1,
                        *self,
                    ));
                    lemma_walk_rel_scoped_ident(t@, node as int, lhs, restrict, z0, z1, *self);
                }
            },
            SyntaxKind::Identifier => {
                proof {
                    lemma_subtree_children(t@, node as int);
                }
                if is_enum_variant_name(t, node) {
                    proof {
                        assert(walk_rel(t@, node as int, lhs, restrict, z0, *self));
                    }
                    return ;
                }
                match lhs {
                    Some(binding) => {
                        self.define(
                            t,
                            DefinitionKind::Variable,
                            Visibility::Private,
                            node,
                            binding,
                        );
                        proof {
                            lemma_define_grown_step(z0, *self, t@, node);
                            assert(walk_rel(t@, node as int, lhs, restrict, z0, *self));
                        }
                    },
                    None => {
                        if is_simple_identifier(t, node) {
                            let usage = get_usage_kind(t, node);
                            self.add_reference(t, usage, node);
                            proof {
                                lemma_referenced_grown(
                                    z0.arena,
                                    self.arena,
                                    z0.current_scope->Some_0 as int,
                                    usage,
                                    node,
                                );
                                assert(usage_recorded(t@, node as int, node, z0, *self));
                            }
                        }
                        proof {
                            assert(walk_rel(t@, node as int, lhs, restrict, z0, *self));
                        }
                    },
                }
            },
            SyntaxKind::ArrowSeparatedPair => {
                self.visit_children_except_field(t, node, FieldName::Key, lhs);
                proof {
                    assert(walk_rel(t@, node as int, lhs, restrict, z0, *self));
                }
            },
            _ => {
                proof {
                    if neutral_subtree(t@, node as int) {
                        lemma_neutral_children(t@, node as int);
                    }
                }
                self.visit_children_in(t, node, lhs, None);
                proof {
                    assert(walked_children(t@, node as int, lhs, None::<SyntaxKind>, 0, z0, *self));
                    assert(walk_rel(t@, node as int, lhs, restrict, z0, *self));
                }
            },
        }
    }

    /// Walks each named child of `node` in source order, carrying the same
    /// traversal context into each.
    fn visit_children_in(
        &mut self,
        t: &SyntaxTree,
        node: usize,
        lhs: Option<usize>,
        restrict: Option<SyntaxKind>,
    )
        requires
            t.wf(),
            analyzer_wf(*old(self), t@),
            node < t@.len(),
            subtree_ok(t@, node as int) || subtree_children_ok(t@, node as int),
            old(self).current_scope is Some,
            lhs is Some ==> lhs->Some_0 < t@.len(),
        ensures
            analyzer_wf(*final(self), t@),
            final(self).current_scope == old(self).current_scope,
            grown(old(self).arena, final(self).arena),
            neutral_children(t@, node as int) ==> *final(self) == *old(self),
            (restrict is Some && forall|k: int|
                0 <= k < t@[node as int].children@.len() ==> ({
                    let c = (#[trigger] t@[node as int].children@[k]) as int;
                    t@[c].named ==> no_kind_in(t@, c, restrict->Some_0)
                })) ==> *final(self) == *old(self),
            walked_children(t@, node as int, lhs, restrict, 0, *old(self), *final(self)),
        decreases t@.len() - node, 0int,
    {
        proof {
            if subtree_ok(t@, node as int) {
                lemma_subtree_children(t@, node as int);
            }
        }
        let num_children = t.children_of(node).len();
        let mut k: usize = 0;
        while k < num_children
            invariant
                t.wf(),
                analyzer_wf(*self, t@),
                node < t@.len(),
                subtree_children_ok(t@, node as int),
                lhs is Some ==> lhs->Some_0 < t@.len(),
                num_children == t@[node as int].children@.len(),
                k <= num_children,
                self.current_scope == old(self).current_scope,
                self.current_scope is Some,
                grown(old(self).arena, self.arena),
                neutral_children(t@, node as int) ==> *self == *old(self),
                (restrict is Some && forall|k2: int|
                    0 <= k2 < t@[node as int].children@.len() ==> ({
                        let c = (#[trigger] t@[node as int].children@[k2]) as int;
                        t@[c].named ==> no_kind_in(t@, c, restrict->Some_0)
                    })) ==> *self == *old(self),
                forall|zf: ScopeAnalyzer|
                    #[trigger] walked_children(t@, node as int, lhs, restrict, k as int, *self, zf)
                        ==> walked_children(t@, node as int, lhs, restrict, 0, *old(self), zf),
            decreases num_children - k,
        {
            proof {
                assert(node_ok(t@, node as int));
                assert(child_ok(t@, node as int, k as int));
                assert(subtree_child_ok(t@, node as int, t@[node as int].children@[k as int] as int));
            }
            let c = t.children_of(node)[k];
            let ghost zk = *self;
            if t.is_named(c) {
                self.visit_in(t, c, lhs, restrict);
                proof {
                    lemma_grown_trans(old(self).arena, zk.arena, self.arena);
                }
            }
            proof {
                assert forall|zf: ScopeAnalyzer|
                    #[trigger] walked_children(
                        t@,
                        node as int,
                        lhs,
                        restrict,
                        k as int + 1,
                        *self,
                        zf,
                    ) implies walked_children(t@, node as int, lhs, restrict, 0, *old(self), zf) by {
                    lemma_walked_children_step(t@, node as int, lhs, restrict, k as int, zk, *self, zf);
                }
            }
            k = k + 1;
        }
        proof {
            assert(walked_children(
                t@,
                node as int,
                lhs,
                restrict,
                num_children as int,
                *self,
                *self,
            ));
        }
    }

    /// Walks each named child of `node` except the one filling the given
    /// field; the declared-name field of a construct is a declaration site,
    /// not a usage.
    fn visit_children_except_field(
        &mut self,
        t: &SyntaxTree,
        node: usize,
        field: FieldName,
        lhs: Option<usize>,
    )
        requires
            t.wf(),
            analyzer_wf(*old(self), t@),
            node < t@.len(),
            subtree_ok(t@, node as int) || subtree_children_ok(t@, node as int),
            old(self).current_scope is Some,
            lhs is Some ==> lhs->Some_0 < t@.len(),
        ensures
            analyzer_wf(*final(self), t@),
            final(self).current_scope == old(self).current_scope,
            grown(old(self).arena, final(self).arena),
            walked_children_except(t@, node as int, field, lhs, 0, *old(self), *final(self)),
        decreases t@.len() - node, 0int,
    {
        proof {
            if subtree_ok(t@, node as int) {
                lemma_subtree_children(t@, node as int);
            }
        }
        let num_children = t.children_of(node).len();
        let mut k: usize = 0;
        while k < num_children
            invariant
                t.wf(),
                analyzer_wf(*self, t@),
                node < t@.len(),
                subtree_children_ok(t@, node as int),
                lhs is Some ==> lhs->Some_0 < t@.len(),
                num_children == t@[node as int].children@.len(),
                k <= num_children,
                self.current_scope == old(self).current_scope,
                self.current_scope is Some,
                grown(old(self).arena, self.arena),
                forall|zf: ScopeAnalyzer|
                    #[trigger] walked_children_except(t@, node as int, field, lhs, k as int, *self, zf)
                        ==> walked_children_except(t@, node as int, field, lhs, 0, *old(self), zf),
            decreases num_children - k,
        {
            proof {
                assert(node_ok(t@, node as int));
                assert(child_ok(t@, node as int, k as int));
                assert(subtree_child_ok(t@, node as int, t@[node as int].children@[k as int] as int));
            }
            let c = t.children_of(node)[k];
            let skip = match t.field_of(c) {
                Some(f) => f == field,
                None => false,
            };
            let ghost zk = *self;
            if !skip && t.is_named(c) {
                self.visit_in(t, c, lhs, None);
                proof {
                    lemma_grown_trans(old(self).arena, zk.arena, self.arena);
                }
            }
            proof {
                assert forall|zf: ScopeAnalyzer|
                    #[trigger] walked_children_except(
                        t@,
                        node as int,
                        field,
                        lhs,
                        k as int + 1,
                        *self,
                        zf,
                    ) implies walked_children_except(t@, node as int, field, lhs, 0, *old(self), zf) by {
                    lemma_walked_children_except_step(
                        t@,
                        node as int,
                        field,
                        lhs,
                        k as int,
                        zk,
                        *self,
                        zf,
                    );
                }
            }
            k = k + 1;
        }
        proof {
            assert(walked_children_except(
                t@,
                node as int,
                field,
                lhs,
                num_children as int,
                *self,
                *self,
            ));
        }
    }

    /// Analyzes a whole parsed source unit: walks its tree once and returns
    /// the finished scope graph. A unit with no declarations and no usages
    /// yields exactly one scope, the root, with no variables and no
    /// references.
    pub fn from_tree(t: &SyntaxTree) -> (z: ScopeAnalyzer)
        requires
            t.wf(),
            t@[0].kind == SyntaxKind::SourceFile,
            subtree_ok(t@, 0),
        ensures
            analyzer_wf(z, t@),
            z.current_scope is None,
            1 <= z.arena.scopes@.len(),
            z.arena.scopes@[0].kind == ScopeKind::Root,
            z.arena.scopes@[0].node == 0,
            z.arena.scopes@[0].upper is None,
            z.arena.scopes@[0].pre_resolved@ == Seq::<usize>::empty(),
            neutral_children(t@, 0) ==> ({
                &&& z.arena.scopes@.len() == 1
                &&& z.arena.definitions@.len() == 0
                &&& z.arena.variables@.len() == 0
                &&& z.arena.references@.len() == 0
                &&& z.arena.scopes@[0].variables@ == Seq::<usize>::empty()
                &&& z.arena.scopes@[0].references@ == Seq::<usize>::empty()
                &&& z.arena.scopes@[0].through@ == Seq::<usize>::empty()
            }),
            exists|z0: ScopeAnalyzer|
                #[trigger] analyzer_empty(z0) && walk_rel(
                    t@,
                    0,
                    None::<usize>,
                    None::<SyntaxKind>,
                    z0,
                    z,
                ),
    {
        let mut analyzer = ScopeAnalyzer::new();
        let ghost fresh = analyzer;
        analyzer.visit(t, 0);
        proof {
            assert(analyzer_empty(fresh));
        }
        analyzer
    }
}

/// The children-side conjunct of [`subtree_ok`]: every child of `n` avoids
/// reopening a source unit and roots a well-shaped subtree.
pub open spec fn subtree_children_ok(ns: Seq<SyntaxNode>, n: int) -> bool {
    forall|k: int|
        0 <= k < ns[n].children@.len() ==> ({
            let c = (#[trigger] ns[n].children@[k]) as int;
            ns[c].kind != SyntaxKind::SourceFile && subtree_ok(ns, c)
        })
}

/// A child named in `subtree_children_ok` is itself fit to walk.
pub open spec fn subtree_child_ok(ns: Seq<SyntaxNode>, n: int, c: int) -> bool {
    ns[c].kind != SyntaxKind::SourceFile && subtree_ok(ns, c)
}

/// A well-shaped subtree has well-shaped children.
proof fn lemma_subtree_children(ns: Seq<SyntaxNode>, n: int)
    requires
        tree_wf(ns),
        0 <= n < ns.len(),
        subtree_ok(ns, n),
    ensures
        subtree_children_ok(ns, n),
        shape_ok(ns, n),
{
    assert forall|k: int| 0 <= k < ns[n].children@.len() implies ({
        let c = (#[trigger] ns[n].children@[k]) as int;
        ns[c].kind != SyntaxKind::SourceFile && subtree_ok(ns, c)
    }) by {
        assert(node_ok(ns, n));
        assert(child_ok(ns, n, k));
    }
}

/// A neutral subtree has neutral children.
proof fn lemma_neutral_children(ns: Seq<SyntaxNode>, n: int)
    requires
        tree_wf(ns),
        0 <= n < ns.len(),
        neutral_subtree(ns, n),
    ensures
        neutral_children(ns, n),
{
    assert forall|k: int| 0 <= k < ns[n].children@.len() implies ({
        let c = (#[trigger] ns[n].children@[k]) as int;
        ns[c].named ==> neutral_subtree(ns, c)
    }) by {
        assert(node_ok(ns, n));
        assert(child_ok(ns, n, k));
    }
}

/// A subtree that avoids a kind has children that avoid it.
proof fn lemma_no_kind_children(ns: Seq<SyntaxNode>, n: int, kind: SyntaxKind)
    requires
        tree_wf(ns),
        0 <= n < ns.len(),
        no_kind_in(ns, n, kind),
    ensures
        forall|k: int|
            0 <= k < ns[n].children@.len() ==> ({
                let c = (#[trigger] ns[n].children@[k]) as int;
                ns[c].named ==> no_kind_in(ns, c, kind)
            }),
{
    assert forall|k: int| 0 <= k < ns[n].children@.len() implies ({
        let c = (#[trigger] ns[n].children@[k]) as int;
        ns[c].named ==> no_kind_in(ns, c, kind)
    }) by {
        assert(node_ok(ns, n));
        assert(child_ok(ns, n, k));
    }
}

/// Recording one declaration leaves the analyzer's scope list and current
/// scope in place and only grows the stores.
proof fn lemma_define_grown_step(z0: ScopeAnalyzer, z1: ScopeAnalyzer, ns: Seq<SyntaxNode>, name: usize)
    requires
        z1.arena == z0.arena || exists|s: int, kind: DefinitionKind, vis: Visibility, node: usize|
            #[trigger] defined(z0.arena, z1.arena, ns, s, kind, vis, name, node),
    ensures
        grown(z0.arena, z1.arena),
{
    if z1.arena == z0.arena {
    } else {
        let (s, kind, vis, node) = choose|s: int, kind: DefinitionKind, vis: Visibility, node: usize|
            #[trigger] defined(z0.arena, z1.arena, ns, s, kind, vis, name, node);
        lemma_defined_grown(z0.arena, z1.arena, ns, s, kind, vis, name, node);
    }
}



/// Marks a state the walk passes through; serves as the quantifier trigger
/// for the intermediate states of the walk relation.
pub open spec fn intermediate(z: ScopeAnalyzer) -> bool {
    true
}

/// An analyzer that has not analyzed anything: empty stores, no open scope.
pub open spec fn analyzer_empty(z: ScopeAnalyzer) -> bool {
    &&& z.scopes@.len() == 0
    &&& z.arena.scopes@.len() == 0
    &&& z.arena.definitions@.len() == 0
    &&& z.arena.variables@.len() == 0
    &&& z.arena.references@.len() == 0
    &&& z.current_scope is None
}

/// Opening the root scope at node `n` and stepping into it.
pub open spec fn root_opened(z0: ScopeAnalyzer, z: ScopeAnalyzer, n: usize) -> bool {
    let id = z0.arena.scopes@.len() as int;
    &&& z.arena.scopes@.len() == id + 1
    &&& z.arena.scopes@[id].kind == ScopeKind::Root
    &&& z.arena.scopes@[id].node == n
    &&& z.arena.scopes@[id].upper is None
    &&& z.arena.scopes@[id].variables@ == Seq::<usize>::empty()
    &&& z.arena.scopes@[id].references@ == Seq::<usize>::empty()
    &&& z.arena.scopes@[id].pre_resolved@ == Seq::<usize>::empty()
    &&& z.arena.scopes@[id].through@ == Seq::<usize>::empty()
    &&& z.arena.scopes@[id].child_scopes@ == Seq::<usize>::empty()
    &&& forall|j: int| 0 <= j < id ==> z.arena.scopes@[j] == z0.arena.scopes@[j]
    &&& z.arena.definitions == z0.arena.definitions
    &&& z.arena.variables == z0.arena.variables
    &&& z.arena.references == z0.arena.references
    &&& z.scopes@ == z0.scopes@.push(id as usize)
    &&& z.current_scope == Some(id as usize)
}

/// Opening a nested scope of the given kind at node `n` inside the current
/// scope and stepping into it.
pub open spec fn nested_opened(
    z0: ScopeAnalyzer,
    z: ScopeAnalyzer,
    kind: ScopeKind,
    n: usize,
) -> bool {
    let id = z0.arena.scopes@.len() as int;
    &&& z0.current_scope is Some
    &&& scope_opened(z0.arena, z.arena, kind, n, z0.current_scope->Some_0)
    &&& z.scopes@ == z0.scopes@.push(id as usize)
    &&& z.current_scope == Some(id as usize)
}

/// Closing scope `s`: its queue drained once and the walk stepped back out
/// to the parent.
pub open spec fn scope_closed(
    ns: Seq<SyntaxNode>,
    z0: ScopeAnalyzer,
    z: ScopeAnalyzer,
    s: usize,
) -> bool {
    &&& closed_scope(z0.arena, z.arena, ns, s as int)
    &&& z.current_scope == z0.arena.scopes@[s as int].upper
    &&& z.scopes == z0.scopes
}

/// The visibility a declaring construct records: public for a macro
/// definition, else the parsed leading modifier.
pub open spec fn decl_vis_matches(ns: Seq<SyntaxNode>, n: int, vis: Visibility) -> bool {
    if ns[n].kind == SyntaxKind::MacroDefinition {
        vis matches Visibility::Pub
    } else {
        item_vis_matches(ns, n, vis)
    }
}

/// Some parsed visibility under which the declaring construct at `n` was
/// recorded between the two states.
pub open spec fn some_vis_defined(
    ns: Seq<SyntaxNode>,
    n: int,
    z0: ScopeAnalyzer,
    z: ScopeAnalyzer,
    name: usize,
) -> bool {
    exists|vis: Visibility|
        decl_vis_matches(ns, n, vis) && #[trigger] defined(
            z0.arena,
            z.arena,
            ns,
            z0.current_scope->Some_0 as int,
            decl_kind_of(ns[n].kind)->Some_0,
            vis,
            name,
            n as usize,
        )
}

/// A concrete recorded visibility witnesses `some_vis_defined`.
proof fn lemma_some_vis_defined(
    ns: Seq<SyntaxNode>,
    n: int,
    z0: ScopeAnalyzer,
    z: ScopeAnalyzer,
    name: usize,
    vis: Visibility,
)
    requires
        decl_vis_matches(ns, n, vis),
        defined(
            z0.arena,
            z.arena,
            ns,
            z0.current_scope->Some_0 as int,
            decl_kind_of(ns[n].kind)->Some_0,
            vis,
            name,
            n as usize,
        ),
    ensures
        some_vis_defined(ns, n, z0, z, name),
{
}

/// Recording in the current scope the declaration a declaring construct
/// carries: one definition and one variable, or nothing for a discard name.
pub open spec fn declared_rel(
    ns: Seq<SyntaxNode>,
    n: int,
    z0: ScopeAnalyzer,
    z: ScopeAnalyzer,
) -> bool {
    &&& z0.current_scope is Some
    &&& z.current_scope == z0.current_scope
    &&& z.scopes == z0.scopes
    &&& match decl_name_node(ns, n) {
        Some(name) => if is_discard(ns, name as int) {
            z.arena == z0.arena
        } else {
            some_vis_defined(ns, n, z0, z, name)
        },
        None => true,
    }
}

/// Some parsed visibility under which the import declaration at `n` was
/// flattened between the two states.
pub open spec fn some_vis_use_defined(
    ns: Seq<SyntaxNode>,
    n: int,
    z0: ScopeAnalyzer,
    z: ScopeAnalyzer,
    arg: usize,
) -> bool {
    exists|vis: Visibility|
        item_vis_matches(ns, n, vis) && #[trigger] use_defined(
            z0.arena,
            z.arena,
            ns,
            z0.current_scope->Some_0 as int,
            n as usize,
            vis,
            use_clause_names(ns, arg as int),
        )
}

/// A concrete parsed visibility witnesses `some_vis_use_defined`.
proof fn lemma_some_vis_use_defined(
    ns: Seq<SyntaxNode>,
    n: int,
    z0: ScopeAnalyzer,
    z: ScopeAnalyzer,
    arg: usize,
    vis: Visibility,
)
    requires
        item_vis_matches(ns, n, vis),
        use_defined(
            z0.arena,
            z.arena,
            ns,
            z0.current_scope->Some_0 as int,
            n as usize,
            vis,
            use_clause_names(ns, arg as int),
        ),
    ensures
        some_vis_use_defined(ns, n, z0, z, arg),
{
}

/// Flattening the argument clause of an import declaration into the current
/// scope, under the declaration's parsed visibility.
pub open spec fn use_decl_rel(
    ns: Seq<SyntaxNode>,
    n: int,
    z0: ScopeAnalyzer,
    z: ScopeAnalyzer,
) -> bool {
    &&& z0.current_scope is Some
    &&& z.current_scope == z0.current_scope
    &&& z.scopes == z0.scopes
    &&& match spec_child_by_field(ns, n, FieldName::Argument) {
        Some(arg) => some_vis_use_defined(ns, n, z0, z, arg),
        None => true,
    }
}

/// Recording one usage of the name at node `m`, classified by the position
/// of node `n`, in the current scope.
pub open spec fn usage_recorded(
    ns: Seq<SyntaxNode>,
    n: int,
    m: usize,
    z0: ScopeAnalyzer,
    z: ScopeAnalyzer,
) -> bool {
    &&& z0.current_scope is Some
    &&& referenced(z0.arena, z.arena, z0.current_scope->Some_0 as int, spec_usage_kind(ns, n), m)
    &&& z.current_scope == z0.current_scope
    &&& z.scopes == z0.scopes
}

/// What one step of the walk does at node `n`, as a pre-order composition
/// of the per-operation relations: a source unit opens the root scope,
/// walks its children, and closes it; a declaring construct records its
/// declaration and walks its children except the declared name; a module or
/// function also opens and closes its own scope around them; an import is
/// flattened; a scoped name records its leading segment and descends only
/// for type arguments; a binding pattern declares its identifiers; a plain
/// identifier or type name records a usage; anything else just descends.
/// The intermediate states are existentially quantified; each conjunct pins
/// one operation's exact effect.
pub open spec fn walk_rel(
    ns: Seq<SyntaxNode>,
    n: int,
    lhs: Option<usize>,
    restrict: Option<SyntaxKind>,
    z0: ScopeAnalyzer,
    z: ScopeAnalyzer,
) -> bool
    decreases ns.len() - n, 1int, 0int,
    when tree_wf(ns) && 0 <= n < ns.len()
    via walk_rel_decreases
{
    let kind = ns[n].kind;
    if restrict is Some && kind != restrict->Some_0 {
        walked_children(ns, n, lhs, restrict, 0, z0, z)
    } else if kind == SyntaxKind::SourceFile {
        exists|z1: ScopeAnalyzer|
            #[trigger] intermediate(z1) && root_opened(z0, z1, n as usize) && exists|
                z2: ScopeAnalyzer,
            |
                #[trigger] intermediate(z2) && walked_children(ns, n, lhs, None::<SyntaxKind>, 0, z1, z2)
                    && scope_closed(ns, z2, z, z0.arena.scopes@.len() as usize)
    } else if kind == SyntaxKind::ModItem || kind == SyntaxKind::FunctionItem {
        let scope_kind = if kind == SyntaxKind::ModItem {
            ScopeKind::Module
        } else {
            ScopeKind::Function
        };
        exists|z1: ScopeAnalyzer|
            #[trigger] intermediate(z1) && declared_rel(ns, n, z0, z1) && exists|
                z2: ScopeAnalyzer,
            |
                #[trigger] intermediate(z2) && nested_opened(z1, z2, scope_kind, n as usize)
                    && exists|z3: ScopeAnalyzer|
                    #[trigger] intermediate(z3) && walked_children_except(
                        ns,
                        n,
                        FieldName::Name,
                        lhs,
                        0,
                        z2,
                        z3,
                    ) && scope_closed(ns, z3, z, z1.arena.scopes@.len() as usize)
    } else if decl_kind_of(kind) is Some && kind != SyntaxKind::ExternCrateDeclaration {
        exists|z1: ScopeAnalyzer|
            #[trigger] intermediate(z1) && declared_rel(ns, n, z0, z1) && walked_children_except(
                ns,
                n,
                FieldName::Name,
                lhs,
                0,
                z1,
                z,
            )
    } else if kind == SyntaxKind::ExternCrateDeclaration {
        declared_rel(ns, n, z0, z)
    } else if kind == SyntaxKind::UseDeclaration {
        use_decl_rel(ns, n, z0, z)
    } else if kind == SyntaxKind::ScopedTypeIdentifier {
        scoped_reference_effect(z0, z, ns, n)
    } else if kind == SyntaxKind::ScopedIdentifier {
        exists|z1: ScopeAnalyzer|
            #[trigger] intermediate(z1) && scoped_reference_effect(z0, z1, ns, n)
                && walked_children(ns, n, lhs, Some(SyntaxKind::TypeArguments), 0, z1, z)
    } else if kind == SyntaxKind::TypeIdentifier {
        usage_recorded(ns, n, n as usize, z0, z)
    } else if kind == SyntaxKind::LetDeclaration {
        match spec_child_by_field(ns, n, FieldName::Pattern) {
            Some(pattern) => if n < pattern < ns.len() {
                exists|z1: ScopeAnalyzer|
                    #[trigger] intermediate(z1) && walk_rel(
                        ns,
                        pattern as int,
                        Some(n as usize),
                        None::<SyntaxKind>,
                        z0,
                        z1,
                    ) && walked_children_except(ns, n, FieldName::Pattern, None::<usize>, 0, z1, z)
            } else {
                true
            },
            None => true,
        }
    } else if kind == SyntaxKind::Identifier {
        if spec_is_enum_variant_name(ns, n) {
            z == z0
        } else {
            match lhs {
                Some(binding) => {
                    &&& z0.current_scope is Some
                    &&& z.current_scope == z0.current_scope
                    &&& z.scopes == z0.scopes
                    &&& if is_discard(ns, n) {
                        z.arena == z0.arena
                    } else {
                        defined(
                            z0.arena,
                            z.arena,
                            ns,
                            z0.current_scope->Some_0 as int,
                            DefinitionKind::Variable,
                            Visibility::Private,
                            n as usize,
                            binding,
                        )
                    }
                },
                None => if spec_is_simple_identifier(ns, n) {
                    usage_recorded(ns, n, n as usize, z0, z)
                } else {
                    z == z0
                },
            }
        }
    } else if kind == SyntaxKind::ArrowSeparatedPair {
        walked_children_except(ns, n, FieldName::Key, lhs, 0, z0, z)
    } else {
        walked_children(ns, n, lhs, None::<SyntaxKind>, 0, z0, z)
    }
}

#[via_fn]
proof fn walk_rel_decreases(
    ns: Seq<SyntaxNode>,
    n: int,
    lhs: Option<usize>,
    restrict: Option<SyntaxKind>,
    z0: ScopeAnalyzer,
    z: ScopeAnalyzer,
) {
}

/// The walk's effect over the named children of `d` from position `k` on,
/// in source order, composed left to right.
pub open spec fn walked_children(
    ns: Seq<SyntaxNode>,
    d: int,
    lhs: Option<usize>,
    restrict: Option<SyntaxKind>,
    k: int,
    z0: ScopeAnalyzer,
    z: ScopeAnalyzer,
) -> bool
    decreases ns.len() - d, 0int, ns[d].children@.len() - k,
    when tree_wf(ns) && 0 <= d < ns.len()
    via walked_children_decreases
{
    let cs = ns[d].children@;
    if k < 0 || k >= cs.len() {
        z == z0
    } else {
        let c = cs[k] as int;
        if ns[c].named {
            exists|z1: ScopeAnalyzer|
                #[trigger] intermediate(z1) && walk_rel(ns, c, lhs, restrict, z0, z1)
                    && walked_children(ns, d, lhs, restrict, k + 1, z1, z)
        } else {
            walked_children(ns, d, lhs, restrict, k + 1, z0, z)
        }
    }
}

#[via_fn]
proof fn walked_children_decreases(
    ns: Seq<SyntaxNode>,
    d: int,
    lhs: Option<usize>,
    restrict: Option<SyntaxKind>,
    k: int,
    z0: ScopeAnalyzer,
    z: ScopeAnalyzer,
) {
    let cs = ns[d].children@;
    if 0 <= k < cs.len() {
        assert(node_ok(ns, d));
        assert(child_ok(ns, d, k));
    }
}

/// The walk's effect over the named children of `d` from position `k` on,
/// skipping the child that fills field `f`.
pub open spec fn walked_children_except(
    ns: Seq<SyntaxNode>,
    d: int,
    f: FieldName,
    lhs: Option<usize>,
    k: int,
    z0: ScopeAnalyzer,
    z: ScopeAnalyzer,
) -> bool
    decreases ns.len() - d, 0int, ns[d].children@.len() - k,
    when tree_wf(ns) && 0 <= d < ns.len()
    via walked_children_except_decreases
{
    let cs = ns[d].children@;
    if k < 0 || k >= cs.len() {
        z == z0
    } else {
        let c = cs[k] as int;
        if ns[c].named && ns[c].field != Some(f) {
            exists|z1: ScopeAnalyzer|
                #[trigger] intermediate(z1) && walk_rel(ns, c, lhs, None::<SyntaxKind>, z0, z1)
                    && walked_children_except(ns, d, f, lhs, k + 1, z1, z)
        } else {
            walked_children_except(ns, d, f, lhs, k + 1, z0, z)
        }
    }
}

#[via_fn]
proof fn walked_children_except_decreases(
    ns: Seq<SyntaxNode>,
    d: int,
    f: FieldName,
    lhs: Option<usize>,
    k: int,
    z0: ScopeAnalyzer,
    z: ScopeAnalyzer,
) {
    let cs = ns[d].children@;
    if 0 <= k < cs.len() {
        assert(node_ok(ns, d));
        assert(child_ok(ns, d, k));
    }
}


/// Folding one processed child back onto the front of a walked suffix.
proof fn lemma_walked_children_step(
    ns: Seq<SyntaxNode>,
    d: int,
    lhs: Option<usize>,
    restrict: Option<SyntaxKind>,
    k: int,
    z0: ScopeAnalyzer,
    z1: ScopeAnalyzer,
    z: ScopeAnalyzer,
)
    requires
        tree_wf(ns),
        0 <= d < ns.len(),
        0 <= k < ns[d].children@.len(),
        ({
            let c = ns[d].children@[k] as int;
            if ns[c].named {
                walk_rel(ns, c, lhs, restrict, z0, z1)
            } else {
                z1 == z0
            }
        }),
        walked_children(ns, d, lhs, restrict, k + 1, z1, z),
    ensures
        walked_children(ns, d, lhs, restrict, k, z0, z),
{
    assert(node_ok(ns, d));
    assert(child_ok(ns, d, k));
    assert(intermediate(z1));
}

/// Folding one processed child back onto the front of a walked suffix,
/// with a skipped field.
proof fn lemma_walked_children_except_step(
    ns: Seq<SyntaxNode>,
    d: int,
    f: FieldName,
    lhs: Option<usize>,
    k: int,
    z0: ScopeAnalyzer,
    z1: ScopeAnalyzer,
    z: ScopeAnalyzer,
)
    requires
        tree_wf(ns),
        0 <= d < ns.len(),
        0 <= k < ns[d].children@.len(),
        ({
            let c = ns[d].children@[k] as int;
            if ns[c].named && ns[c].field != Some(f) {
                walk_rel(ns, c, lhs, None::<SyntaxKind>, z0, z1)
            } else {
                z1 == z0
            }
        }),
        walked_children_except(ns, d, f, lhs, k + 1, z1, z),
    ensures
        walked_children_except(ns, d, f, lhs, k, z0, z),
{
    assert(node_ok(ns, d));
    assert(child_ok(ns, d, k));
    assert(intermediate(z1));
}

/// Folding the three steps of a whole source unit into its walk relation.
proof fn lemma_walk_rel_source(
    ns: Seq<SyntaxNode>,
    n: int,
    lhs: Option<usize>,
    z0: ScopeAnalyzer,
    z1: ScopeAnalyzer,
    z2: ScopeAnalyzer,
    z: ScopeAnalyzer,
)
    requires
        tree_wf(ns),
        0 <= n < ns.len(),
        ns[n].kind == SyntaxKind::SourceFile,
        root_opened(z0, z1, n as usize),
        walked_children(ns, n, lhs, None::<SyntaxKind>, 0, z1, z2),
        scope_closed(ns, z2, z, z0.arena.scopes@.len() as usize),
    ensures
        walk_rel(ns, n, lhs, None::<SyntaxKind>, z0, z),
{
    assert(intermediate(z1));
    assert(intermediate(z2));
}

/// Folding declaration and child walk into a plain declaring construct's
/// walk relation.
proof fn lemma_walk_rel_plain_decl(
    ns: Seq<SyntaxNode>,
    n: int,
    lhs: Option<usize>,
    restrict: Option<SyntaxKind>,
    z0: ScopeAnalyzer,
    z1: ScopeAnalyzer,
    z: ScopeAnalyzer,
)
    requires
        tree_wf(ns),
        0 <= n < ns.len(),
        decl_kind_of(ns[n].kind) is Some,
        ns[n].kind != SyntaxKind::ExternCrateDeclaration,
        ns[n].kind != SyntaxKind::ModItem,
        ns[n].kind != SyntaxKind::FunctionItem,
        restrict is None || ns[n].kind == restrict->Some_0,
        declared_rel(ns, n, z0, z1),
        walked_children_except(ns, n, FieldName::Name, lhs, 0, z1, z),
    ensures
        walk_rel(ns, n, lhs, restrict, z0, z),
{
    assert(intermediate(z1));
}

/// Folding declaration, scope opening, child walk and scope closing into a
/// module or function construct's walk relation.
proof fn lemma_walk_rel_scoped_decl(
    ns: Seq<SyntaxNode>,
    n: int,
    lhs: Option<usize>,
    restrict: Option<SyntaxKind>,
    z0: ScopeAnalyzer,
    z1: ScopeAnalyzer,
    z2: ScopeAnalyzer,
    z3: ScopeAnalyzer,
    z: ScopeAnalyzer,
)
    requires
        tree_wf(ns),
        0 <= n < ns.len(),
        ns[n].kind == SyntaxKind::ModItem || ns[n].kind == SyntaxKind::FunctionItem,
        restrict is None || ns[n].kind == restrict->Some_0,
        declared_rel(ns, n, z0, z1),
        nested_opened(
            z1,
            z2,
            if ns[n].kind == SyntaxKind::ModItem {
                ScopeKind::Module
            } else {
                ScopeKind::Function
            },
            n as usize,
        ),
        walked_children_except(ns, n, FieldName::Name, lhs, 0, z2, z3),
        scope_closed(ns, z3, z, z1.arena.scopes@.len() as usize),
    ensures
        walk_rel(ns, n, lhs, restrict, z0, z),
{
    assert(intermediate(z1));
    assert(intermediate(z2));
    assert(intermediate(z3));
}

/// Folding the leading-segment usage and the restricted descent into a
/// scoped identifier's walk relation.
proof fn lemma_walk_rel_scoped_ident(
    ns: Seq<SyntaxNode>,
    n: int,
    lhs: Option<usize>,
    restrict: Option<SyntaxKind>,
    z0: ScopeAnalyzer,
    z1: ScopeAnalyzer,
    z: ScopeAnalyzer,
)
    requires
        tree_wf(ns),
        0 <= n < ns.len(),
        ns[n].kind == SyntaxKind::ScopedIdentifier,
        restrict is None || ns[n].kind == restrict->Some_0,
        scoped_reference_effect(z0, z1, ns, n),
        walked_children(ns, n, lhs, Some(SyntaxKind::TypeArguments), 0, z1, z),
    ensures
        walk_rel(ns, n, lhs, restrict, z0, z),
{
    assert(intermediate(z1));
}

/// Folding the bound-pattern walk and the remaining children into a
/// binding construct's walk relation.
proof fn lemma_walk_rel_let(
    ns: Seq<SyntaxNode>,
    n: int,
    lhs: Option<usize>,
    restrict: Option<SyntaxKind>,
    z0: ScopeAnalyzer,
    z1: ScopeAnalyzer,
    z: ScopeAnalyzer,
)
    requires
        tree_wf(ns),
        0 <= n < ns.len(),
        ns[n].kind == SyntaxKind::LetDeclaration,
        restrict is None || ns[n].kind == restrict->Some_0,
        spec_child_by_field(ns, n, FieldName::Pattern) is Some,
        n < spec_child_by_field(ns, n, FieldName::Pattern)->Some_0 < ns.len(),
        walk_rel(
            ns,
            spec_child_by_field(ns, n, FieldName::Pattern)->Some_0 as int,
            Some(n as usize),
            None::<SyntaxKind>,
            z0,
            z1,
        ),
        walked_children_except(ns, n, FieldName::Pattern, None::<usize>, 0, z1, z),
    ensures
        walk_rel(ns, n, lhs, restrict, z0, z),
{
    assert(intermediate(z1));
}


} // verus!
