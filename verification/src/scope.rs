//! Lexical scopes and the resolution algorithm.
//!
//! A scope owns the names declared directly in it, the references that
//! originate in it, a queue of references still awaiting resolution, and the
//! trail of references that bubbled through it unresolved. When a scope
//! closes, its queue is drained once, in arrival order: each reference either
//! resolves against the scope's declarations or moves up to the parent's
//! queue.

use vstd::prelude::*;

use crate::arenas::{arenas_wf, def_ok, pending_unresolved, ref_ok, scope_ok, state_ok, var_ok, AllArenas};
use crate::ast_helpers::{is_discard, is_underscore};
use crate::definition::{Definition, DefinitionKind, Visibility};
use crate::reference::{Reference, UsageKind};
use crate::tree::{SyntaxNode, SyntaxTree};
use crate::variable::Variable;

verus! {

/// The construct kind a scope was opened for.
#[derive(Clone, Copy, Debug, PartialEq, Eq, Structural)]
pub enum ScopeKind {
    Root,
    Module,
    Function,
}

/// One lexical scope.
#[derive(Debug)]
pub struct Scope {
    /// The construct kind the scope was opened for.
    pub kind: ScopeKind,
    /// The syntax node the scope was opened at.
    pub node: usize,
    /// The variables declared directly in this scope, in declaration order.
    pub variables: Vec<usize>,
    /// The references originating in this scope, in creation order.
    pub references: Vec<usize>,
    /// References awaiting resolution here, drained when the scope closes.
    pub pre_resolved: Vec<usize>,
    /// References that passed through this scope unresolved.
    pub through: Vec<usize>,
    /// The enclosing scope; `None` for a root scope.
    pub upper: Option<usize>,
    /// The scopes opened directly inside this one, in creation order.
    pub child_scopes: Vec<usize>,
}

impl Scope {
    /// The construct kind the scope was opened for.
    pub fn kind(&self) -> (k: ScopeKind)
        ensures
            k == self.kind,
    {
        self.kind
    }

    /// The variables declared directly in this scope, in declaration order.
    pub fn variables(&self) -> (vs: &Vec<usize>)
        ensures
            vs == &self.variables,
    {
        &self.variables
    }

    /// The references originating in this scope, in creation order.
    pub fn references(&self) -> (rs: &Vec<usize>)
        ensures
            rs == &self.references,
    {
        &self.references
    }

    /// The references still queued for resolution here.
    pub fn pre_resolved(&self) -> (rs: &Vec<usize>)
        ensures
            rs == &self.pre_resolved,
    {
        &self.pre_resolved
    }

    /// The references that passed through this scope unresolved.
    pub fn through(&self) -> (rs: &Vec<usize>)
        ensures
            rs == &self.through,
    {
        &self.through
    }

    /// The enclosing scope, or `None` for a root scope.
    pub fn maybe_upper(&self) -> (u: Option<usize>)
        ensures
            u == self.upper,
    {
        self.upper
    }

    /// The scopes opened directly inside this one, in creation order.
    pub fn child_scopes(&self) -> (cs: &Vec<usize>)
        ensures
            cs == &self.child_scopes,
    {
        &self.child_scopes
    }

    /// Allocates a scope of the given kind and registers it with its parent.
    fn open_in(
        arenas: &mut AllArenas,
        t: &SyntaxTree,
        kind: ScopeKind,
        upper: Option<usize>,
        node: usize,
    ) -> (id: usize)
        requires
            t.wf(),
            state_ok(*old(arenas), t@),
            node < t@.len(),
            upper is Some ==> upper->Some_0 < old(arenas).scopes@.len(),
        ensures
            state_ok(*final(arenas), t@),
            id == old(arenas).scopes@.len(),
            final(arenas).scopes@.len() == old(arenas).scopes@.len() + 1,
            final(arenas).scopes@[id as int].kind == kind,
            final(arenas).scopes@[id as int].node == node,
            final(arenas).scopes@[id as int].upper == upper,
            final(arenas).scopes@[id as int].variables@ == Seq::<usize>::empty(),
            final(arenas).scopes@[id as int].references@ == Seq::<usize>::empty(),
            final(arenas).scopes@[id as int].pre_resolved@ == Seq::<usize>::empty(),
            final(arenas).scopes@[id as int].through@ == Seq::<usize>::empty(),
            final(arenas).scopes@[id as int].child_scopes@ == Seq::<usize>::empty(),
            forall|j: int|
                0 <= j < old(arenas).scopes@.len() && (upper is None || j != upper->Some_0)
                    ==> final(arenas).scopes@[j] == old(arenas).scopes@[j],
            upper is Some ==> ({
                let u = upper->Some_0 as int;
                &&& final(arenas).scopes@[u].child_scopes@ == old(arenas).scopes@[u].child_scopes@.push(id)
                &&& final(arenas).scopes@[u].kind == old(arenas).scopes@[u].kind
                &&& final(arenas).scopes@[u].node == old(arenas).scopes@[u].node
                &&& final(arenas).scopes@[u].upper == old(arenas).scopes@[u].upper
                &&& final(arenas).scopes@[u].variables == old(arenas).scopes@[u].variables
                &&& final(arenas).scopes@[u].references == old(arenas).scopes@[u].references
                &&& final(arenas).scopes@[u].pre_resolved == old(arenas).scopes@[u].pre_resolved
                &&& final(arenas).scopes@[u].through == old(arenas).scopes@[u].through
            }),
            final(arenas).definitions == old(arenas).definitions,
            final(arenas).variables == old(arenas).variables,
            final(arenas).references == old(arenas).references,
    {
        let id = arenas.scopes.len();
        arenas.scopes.push(
            Scope {
                kind,
                node,
                variables: Vec::new(),
                references: Vec::new(),
                pre_resolved: Vec::new(),
                through: Vec::new(),
                upper,
                child_scopes: Vec::new(),
            },
        );
        if let Some(u) = upper {
            arenas.scopes[u].child_scopes.push(id);
        }
        proof {
            let a0 = *old(arenas);
            let a = *arenas;
            assert forall|i: int| 0 <= i < a.scopes@.len() implies #[trigger] scope_ok(a, t@, i) by {
                if i < a0.scopes@.len() {
                    assert(scope_ok(a0, t@, i));
                }
            }
            assert forall|i: int| 0 <= i < a.variables@.len() implies #[trigger] var_ok(a, i) by {
                assert(var_ok(a0, i));
            }
            assert forall|i: int| 0 <= i < a.references@.len() implies #[trigger] ref_ok(a, t@, i) by {
                assert(ref_ok(a0, t@, i));
            }
            assert forall|i: int| 0 <= i < a.definitions@.len() implies #[trigger] def_ok(a, t@, i) by {
                assert(def_ok(a0, t@, i));
            }
            assert forall|i: int, k: int|
                #![trigger a.scopes@[i].pre_resolved@[k]]
                0 <= i < a.scopes@.len() && 0 <= k < a.scopes@[i].pre_resolved@.len() implies a.references@[a.scopes@[i].pre_resolved@[k] as int].resolved is None by {
                assert(0 <= i < a0.scopes@.len() ==> a0.scopes@[i].pre_resolved@[k]
                    == a.scopes@[i].pre_resolved@[k]);
            }
            assert forall|i1: int, k1: int, i2: int, k2: int|
                #![trigger a.scopes@[i1].pre_resolved@[k1], a.scopes@[i2].pre_resolved@[k2]]
                0 <= i1 < a.scopes@.len() && 0 <= k1 < a.scopes@[i1].pre_resolved@.len() && 0 <= i2
                    < a.scopes@.len() && 0 <= k2 < a.scopes@[i2].pre_resolved@.len() && !(i1 == i2
                    && k1 == k2) implies a.scopes@[i1].pre_resolved@[k1]
                != a.scopes@[i2].pre_resolved@[k2] by {
                if i1 >= a0.scopes@.len() || i2 >= a0.scopes@.len() {
                    assert(false);
                } else {
                    assert(a.scopes@[i1].pre_resolved@[k1] == a0.scopes@[i1].pre_resolved@[k1]);
                    assert(a.scopes@[i2].pre_resolved@[k2] == a0.scopes@[i2].pre_resolved@[k2]);
                }
            }
        }
        id
    }

    /// Opens the root scope of an analysis run.
    pub fn new_root(arenas: &mut AllArenas, t: &SyntaxTree, node: usize) -> (id: usize)
        requires
            t.wf(),
            state_ok(*old(arenas), t@),
            node < t@.len(),
        ensures
            state_ok(*final(arenas), t@),
            id == old(arenas).scopes@.len(),
            final(arenas).scopes@.len() == old(arenas).scopes@.len() + 1,
            final(arenas).scopes@[id as int].kind == ScopeKind::Root,
            final(arenas).scopes@[id as int].node == node,
            final(arenas).scopes@[id as int].upper is None,
            final(arenas).scopes@[id as int].variables@ == Seq::<usize>::empty(),
            final(arenas).scopes@[id as int].references@ == Seq::<usize>::empty(),
            final(arenas).scopes@[id as int].pre_resolved@ == Seq::<usize>::empty(),
            final(arenas).scopes@[id as int].through@ == Seq::<usize>::empty(),
            final(arenas).scopes@[id as int].child_scopes@ == Seq::<usize>::empty(),
            forall|j: int|
                0 <= j < old(arenas).scopes@.len() ==> final(arenas).scopes@[j] == old(
                    arenas,
                ).scopes@[j],
            final(arenas).definitions == old(arenas).definitions,
            final(arenas).variables == old(arenas).variables,
            final(arenas).references == old(arenas).references,
    {
        Self::open_in(arenas, t, ScopeKind::Root, None, node)
    }

    /// Opens a module scope inside `upper`.
    pub fn new_module(arenas: &mut AllArenas, t: &SyntaxTree, node: usize, upper: usize) -> (id:
        usize)
        requires
            t.wf(),
            state_ok(*old(arenas), t@),
            node < t@.len(),
            upper < old(arenas).scopes@.len(),
        ensures
            state_ok(*final(arenas), t@),
            id == old(arenas).scopes@.len(),
            scope_opened(*old(arenas), *final(arenas), ScopeKind::Module, node, upper),
    {
        Self::open_in(arenas, t, ScopeKind::Module, Some(upper), node)
    }

    /// Opens a function scope inside `upper`.
    pub fn new_function(arenas: &mut AllArenas, t: &SyntaxTree, node: usize, upper: usize) -> (id:
        usize)
        requires
            t.wf(),
            state_ok(*old(arenas), t@),
            node < t@.len(),
            upper < old(arenas).scopes@.len(),
        ensures
            state_ok(*final(arenas), t@),
            id == old(arenas).scopes@.len(),
            scope_opened(*old(arenas), *final(arenas), ScopeKind::Function, node, upper),
    {
        Self::open_in(arenas, t, ScopeKind::Function, Some(upper), node)
    }
}

/// The relation between the stores before and after opening one nested scope
/// of the given kind at `node` inside `upper`: one scope is appended, the
/// parent gains one child link, and nothing else moves.
pub open spec fn scope_opened(
    a0: AllArenas,
    a: AllArenas,
    kind: ScopeKind,
    node: usize,
    upper: usize,
) -> bool {
    let id = a0.scopes@.len() as int;
    &&& a.scopes@.len() == a0.scopes@.len() + 1
    &&& a.scopes@[id].kind == kind
    &&& a.scopes@[id].node == node
    &&& a.scopes@[id].upper == Some(upper)
    &&& a.scopes@[id].variables@ == Seq::<usize>::empty()
    &&& a.scopes@[id].references@ == Seq::<usize>::empty()
    &&& a.scopes@[id].pre_resolved@ == Seq::<usize>::empty()
    &&& a.scopes@[id].through@ == Seq::<usize>::empty()
    &&& a.scopes@[id].child_scopes@ == Seq::<usize>::empty()
    &&& forall|j: int|
        0 <= j < a0.scopes@.len() && j != upper ==> a.scopes@[j] == a0.scopes@[j]
    &&& a.scopes@[upper as int].child_scopes@ == a0.scopes@[upper as int].child_scopes@.push(
        id as usize,
    )
    &&& a.scopes@[upper as int].kind == a0.scopes@[upper as int].kind
    &&& a.scopes@[upper as int].node == a0.scopes@[upper as int].node
    &&& a.scopes@[upper as int].upper == a0.scopes@[upper as int].upper
    &&& a.scopes@[upper as int].variables == a0.scopes@[upper as int].variables
    &&& a.scopes@[upper as int].references == a0.scopes@[upper as int].references
    &&& a.scopes@[upper as int].pre_resolved == a0.scopes@[upper as int].pre_resolved
    &&& a.scopes@[upper as int].through == a0.scopes@[upper as int].through
    &&& a.definitions == a0.definitions
    &&& a.variables == a0.variables
    &&& a.references == a0.references
}

impl Scope {
    /// Records a declaration in scope `self_`: allocates its definition and
    /// its variable and indexes the variable into the scope, unless the name
    /// is the placeholder discard name, which is skipped silently.
    pub fn define(
        self_: usize,
        arenas: &mut AllArenas,
        t: &SyntaxTree,
        kind: DefinitionKind,
        visibility: Visibility,
        name: usize,
        node: usize,
    )
        requires
            t.wf(),
            state_ok(*old(arenas), t@),
            self_ < old(arenas).scopes@.len(),
            name < t@.len(),
            node < t@.len(),
        ensures
            state_ok(*final(arenas), t@),
            is_discard(t@, name as int) ==> *final(arenas) == *old(arenas),
            !is_discard(t@, name as int) ==> defined(
                *old(arenas),
                *final(arenas),
                t@,
                self_ as int,
                kind,
                visibility,
                name,
                node,
            ),
    {
        if is_underscore(t, name) {
            return ;
        }
        let name_text = t.text(name).clone();
        let definition = Definition::new(&mut arenas.definitions, kind, name, node, visibility);
        let variable = Variable::new(&mut arenas.variables, name_text, definition, self_);
        arenas.scopes[self_].variables.push(variable);
        proof {
            let a0 = *old(arenas);
            let a = *arenas;
            assert forall|i: int| 0 <= i < a.scopes@.len() implies #[trigger] scope_ok(a, t@, i) by {
                assert(scope_ok(a0, t@, i));
                if i == self_ {
                    let s = a.scopes@[i];
                    assert forall|k: int| 0 <= k < s.variables@.len() implies #[trigger] s.variables@[k]
                        < a.variables@.len() by {
                        if k < a0.scopes@[i].variables@.len() {
                            assert(a0.scopes@[i].variables@[k] < a0.variables@.len());
                        }
                    }
                }
            }
            assert forall|i: int| 0 <= i < a.variables@.len() implies #[trigger] var_ok(a, i) by {
                if i < a0.variables@.len() {
                    assert(var_ok(a0, i));
                }
            }
            assert forall|i: int| 0 <= i < a.references@.len() implies #[trigger] ref_ok(a, t@, i) by {
                assert(ref_ok(a0, t@, i));
            }
            assert forall|i: int| 0 <= i < a.definitions@.len() implies #[trigger] def_ok(a, t@, i) by {
                if i < a0.definitions@.len() {
                    assert(def_ok(a0, t@, i));
                }
            }
            assert forall|i: int, k: int|
                #![trigger a.scopes@[i].pre_resolved@[k]]
                0 <= i < a.scopes@.len() && 0 <= k < a.scopes@[i].pre_resolved@.len() implies a.references@[a.scopes@[i].pre_resolved@[k] as int].resolved is None by {
                assert(a.scopes@[i].pre_resolved@[k] == a0.scopes@[i].pre_resolved@[k]);
            }
            assert forall|i1: int, k1: int, i2: int, k2: int|
                #![trigger a.scopes@[i1].pre_resolved@[k1], a.scopes@[i2].pre_resolved@[k2]]
                0 <= i1 < a.scopes@.len() && 0 <= k1 < a.scopes@[i1].pre_resolved@.len() && 0 <= i2
                    < a.scopes@.len() && 0 <= k2 < a.scopes@[i2].pre_resolved@.len() && !(i1 == i2
                    && k1 == k2) implies a.scopes@[i1].pre_resolved@[k1]
                != a.scopes@[i2].pre_resolved@[k2] by {
                assert(a.scopes@[i1].pre_resolved@[k1] == a0.scopes@[i1].pre_resolved@[k1]);
                assert(a.scopes@[i2].pre_resolved@[k2] == a0.scopes@[i2].pre_resolved@[k2]);
            }
        }
    }

    /// Records a usage in scope `self_`: allocates an unresolved reference
    /// and queues it for resolution at scope close.
    pub fn add_reference(
        self_: usize,
        arenas: &mut AllArenas,
        t: &SyntaxTree,
        usage_kind: UsageKind,
        node: usize,
    )
        requires
            t.wf(),
            state_ok(*old(arenas), t@),
            self_ < old(arenas).scopes@.len(),
            node < t@.len(),
        ensures
            state_ok(*final(arenas), t@),
            referenced(*old(arenas), *final(arenas), self_ as int, usage_kind, node),
    {
        let reference = Reference::new(&mut arenas.references, usage_kind, node, self_);
        let scope = &mut arenas.scopes[self_];
        scope.references.push(reference);
        scope.pre_resolved.push(reference);
        proof {
            let a0 = *old(arenas);
            let a = *arenas;
            assert forall|i: int| 0 <= i < a.scopes@.len() implies #[trigger] scope_ok(a, t@, i) by {
                assert(scope_ok(a0, t@, i));
                if i == self_ {
                    let s = a.scopes@[i];
                    assert forall|k: int| 0 <= k < s.references@.len() implies #[trigger] s.references@[k]
                        < a.references@.len() by {
                        if k < a0.scopes@[i].references@.len() {
                            assert(a0.scopes@[i].references@[k] < a0.references@.len());
                        }
                    }
                    assert forall|k: int| 0 <= k < s.pre_resolved@.len() implies #[trigger] s.pre_resolved@[k]
                        < a.references@.len() by {
                        if k < a0.scopes@[i].pre_resolved@.len() {
                            assert(a0.scopes@[i].pre_resolved@[k] < a0.references@.len());
                        }
                    }
                }
            }
            assert forall|i: int| 0 <= i < a.variables@.len() implies #[trigger] var_ok(a, i) by {
                assert(var_ok(a0, i));
            }
            assert forall|i: int| 0 <= i < a.references@.len() implies #[trigger] ref_ok(a, t@, i) by {
                if i < a0.references@.len() {
                    assert(ref_ok(a0, t@, i));
                }
            }
            assert forall|i: int| 0 <= i < a.definitions@.len() implies #[trigger] def_ok(a, t@, i) by {
                assert(def_ok(a0, t@, i));
            }
            assert forall|i: int, k: int|
                #![trigger a.scopes@[i].pre_resolved@[k]]
                0 <= i < a.scopes@.len() && 0 <= k < a.scopes@[i].pre_resolved@.len() implies a.references@[a.scopes@[i].pre_resolved@[k] as int].resolved is None by {
                if i == self_ && k == a.scopes@[i].pre_resolved@.len() - 1 {
                } else {
                    assert(a.scopes@[i].pre_resolved@[k] == a0.scopes@[i].pre_resolved@[k]);
                    assert(scope_ok(a0, t@, i));
                    assert(a0.scopes@[i].pre_resolved@[k] < a0.references@.len());
                    assert(a0.references@[a0.scopes@[i].pre_resolved@[k] as int].resolved is None);
                }
            }
            assert forall|i1: int, k1: int, i2: int, k2: int|
                #![trigger a.scopes@[i1].pre_resolved@[k1], a.scopes@[i2].pre_resolved@[k2]]
                0 <= i1 < a.scopes@.len() && 0 <= k1 < a.scopes@[i1].pre_resolved@.len() && 0 <= i2
                    < a.scopes@.len() && 0 <= k2 < a.scopes@[i2].pre_resolved@.len() && !(i1 == i2
                    && k1 == k2) implies a.scopes@[i1].pre_resolved@[k1]
                != a.scopes@[i2].pre_resolved@[k2] by {
                let r = a0.references@.len();
                let new1 = i1 == self_ && k1 == a.scopes@[self_ as int].pre_resolved@.len() - 1;
                let new2 = i2 == self_ && k2 == a.scopes@[self_ as int].pre_resolved@.len() - 1;
                if new1 && new2 {
                    assert(false);
                } else if new1 {
                    assert(a.scopes@[i2].pre_resolved@[k2] == a0.scopes@[i2].pre_resolved@[k2]);
                    assert(scope_ok(a0, t@, i2));
                    assert(a0.scopes@[i2].pre_resolved@[k2] < r);
                } else if new2 {
                    assert(a.scopes@[i1].pre_resolved@[k1] == a0.scopes@[i1].pre_resolved@[k1]);
                    assert(scope_ok(a0, t@, i1));
                    assert(a0.scopes@[i1].pre_resolved@[k1] < r);
                } else {
                    assert(a.scopes@[i1].pre_resolved@[k1] == a0.scopes@[i1].pre_resolved@[k1]);
                    assert(a.scopes@[i2].pre_resolved@[k2] == a0.scopes@[i2].pre_resolved@[k2]);
                }
            }
        }
    }
}

/// The relation between the stores before and after recording one
/// declaration that is not a discard name in scope `s`: one definition and
/// one variable with no references yet are appended, the scope indexes the
/// variable, and nothing else moves.
pub open spec fn defined(
    a0: AllArenas,
    a: AllArenas,
    ns: Seq<SyntaxNode>,
    s: int,
    kind: DefinitionKind,
    visibility: Visibility,
    name: usize,
    node: usize,
) -> bool {
    let d = a0.definitions@.len() as int;
    let v = a0.variables@.len() as int;
    &&& a.definitions@.len() == d + 1
    &&& a.definitions@[d] == (Definition { kind, name, node, visibility })
    &&& forall|j: int| 0 <= j < d ==> a.definitions@[j] == a0.definitions@[j]
    &&& a.variables@.len() == v + 1
    &&& a.variables@[v].name@ == ns[name as int].text@
    &&& a.variables@[v].definition == d
    &&& a.variables@[v].scope == s
    &&& a.variables@[v].references@ == Seq::<usize>::empty()
    &&& forall|j: int| 0 <= j < v ==> a.variables@[j] == a0.variables@[j]
    &&& a.references == a0.references
    &&& a.scopes@.len() == a0.scopes@.len()
    &&& forall|j: int| 0 <= j < a0.scopes@.len() && j != s ==> a.scopes@[j] == a0.scopes@[j]
    &&& a.scopes@[s].variables@ == a0.scopes@[s].variables@.push(v as usize)
    &&& a.scopes@[s].kind == a0.scopes@[s].kind
    &&& a.scopes@[s].node == a0.scopes@[s].node
    &&& a.scopes@[s].upper == a0.scopes@[s].upper
    &&& a.scopes@[s].references == a0.scopes@[s].references
    &&& a.scopes@[s].pre_resolved == a0.scopes@[s].pre_resolved
    &&& a.scopes@[s].through == a0.scopes@[s].through
    &&& a.scopes@[s].child_scopes == a0.scopes@[s].child_scopes
}

/// The relation between the stores before and after recording one usage in
/// scope `s`: one unresolved reference is appended, listed and queued on the
/// scope, and nothing else moves.
pub open spec fn referenced(
    a0: AllArenas,
    a: AllArenas,
    s: int,
    usage_kind: UsageKind,
    node: usize,
) -> bool {
    let r = a0.references@.len() as int;
    &&& a.references@.len() == r + 1
    &&& a.references@[r].node == node
    &&& a.references@[r].scope == s
    &&& a.references@[r].resolved is None
    &&& a.references@[r].usage_kind == usage_kind
    &&& forall|j: int| 0 <= j < r ==> a.references@[j] == a0.references@[j]
    &&& a.definitions == a0.definitions
    &&& a.variables == a0.variables
    &&& a.scopes@.len() == a0.scopes@.len()
    &&& forall|j: int| 0 <= j < a0.scopes@.len() && j != s ==> a.scopes@[j] == a0.scopes@[j]
    &&& a.scopes@[s].references@ == a0.scopes@[s].references@.push(r as usize)
    &&& a.scopes@[s].pre_resolved@ == a0.scopes@[s].pre_resolved@.push(r as usize)
    &&& a.scopes@[s].kind == a0.scopes@[s].kind
    &&& a.scopes@[s].node == a0.scopes@[s].node
    &&& a.scopes@[s].upper == a0.scopes@[s].upper
    &&& a.scopes@[s].variables == a0.scopes@[s].variables
    &&& a.scopes@[s].through == a0.scopes@[s].through
    &&& a.scopes@[s].child_scopes == a0.scopes@[s].child_scopes
}


/// The name a reference uses: the text of its identifier node.
pub open spec fn ref_name(ns: Seq<SyntaxNode>, r: Reference) -> Seq<char> {
    ns[r.node as int].text@
}

/// Whether variable `v` is an eligible match for a reference of the given
/// role whose origin is `r.scope`, evaluated at closing scope `s`. A plain
/// local binding is visible only from its own scope; every other declaration
/// kind is visible from any distance. An attribute name matches only import
/// definitions.
pub open spec fn variable_eligible(a: AllArenas, s: int, r: Reference, v: Variable) -> bool {
    match r.usage_kind {
        UsageKind::AttributeName => a.definitions@[v.definition as int].kind
            == DefinitionKind::Use,
        _ => a.definitions@[v.definition as int].kind == DefinitionKind::Variable ==> r.scope
            == s,
    }
}

/// Whether the variable behind handle `vh` matches reference `r` at closing
/// scope `s`: same name and eligible.
pub open spec fn candidate(
    a: AllArenas,
    ns: Seq<SyntaxNode>,
    s: int,
    r: Reference,
    vh: usize,
) -> bool {
    &&& a.variables@[vh as int].name@ == ref_name(ns, r)
    &&& variable_eligible(a, s, r, a.variables@[vh as int])
}

/// The first candidate for `r` among scope `s`'s variables from position `k`
/// on, in declaration order.
pub open spec fn find_match_from(
    a: AllArenas,
    ns: Seq<SyntaxNode>,
    s: int,
    r: Reference,
    k: int,
) -> Option<usize>
    decreases a.scopes@[s].variables@.len() - k,
{
    let vars = a.scopes@[s].variables@;
    if k < 0 || k >= vars.len() {
        None
    } else if candidate(a, ns, s, r, vars[k]) {
        Some(vars[k])
    } else {
        find_match_from(a, ns, s, r, k + 1)
    }
}

/// The first candidate for `r` among scope `s`'s variables, in declaration
/// order, or `None` where the scope declares no eligible name.
pub open spec fn find_match(a: AllArenas, ns: Seq<SyntaxNode>, s: int, r: Reference) -> Option<
    usize,
> {
    find_match_from(a, ns, s, r, 0)
}

/// A match is unaffected by work that only resolves references and grows
/// reference lists: it depends only on the scope's variable list, the
/// variables' names and definitions, and the reference's own fields.
proof fn lemma_find_match_from_stable(
    a0: AllArenas,
    a: AllArenas,
    ns: Seq<SyntaxNode>,
    s: int,
    r0: Reference,
    r: Reference,
    k: int,
)
    requires
        arenas_wf(a0, ns),
        0 <= s < a0.scopes@.len(),
        a.scopes@[s].variables == a0.scopes@[s].variables,
        a.definitions == a0.definitions,
        a.variables@.len() == a0.variables@.len(),
        forall|j: int|
            0 <= j < a0.variables@.len() ==> (#[trigger] a.variables@[j]).name
                == a0.variables@[j].name && a.variables@[j].definition
                == a0.variables@[j].definition,
        r.node == r0.node,
        r.scope == r0.scope,
        r.usage_kind == r0.usage_kind,
    ensures
        find_match_from(a, ns, s, r, k) == find_match_from(a0, ns, s, r0, k),
    decreases a0.scopes@[s].variables@.len() - k,
{
    let vars = a0.scopes@[s].variables@;
    if k < 0 || k >= vars.len() {
    } else {
        assert(scope_ok(a0, ns, s));
        assert(vars[k] < a0.variables@.len());
        assert(candidate(a, ns, s, r, vars[k]) == candidate(a0, ns, s, r0, vars[k]));
        lemma_find_match_from_stable(a0, a, ns, s, r0, r, k + 1);
    }
}

/// The relation between the stores before and after resolving one reference
/// `rh` at scope `s`: where an eligible match exists, the reference points
/// to it and appears at the end of the match's reference list, and nothing
/// else moves; where none exists, nothing moves at all.
pub open spec fn resolved_one(
    a0: AllArenas,
    a: AllArenas,
    ns: Seq<SyntaxNode>,
    s: int,
    rh: usize,
) -> bool {
    let m = find_match(a0, ns, s, a0.references@[rh as int]);
    match m {
        None => a == a0,
        Some(vh) => {
            let v = vh as int;
            &&& a.references@.len() == a0.references@.len()
            &&& forall|j: int|
                0 <= j < a0.references@.len() && j != rh ==> a.references@[j]
                    == a0.references@[j]
            &&& a.references@[rh as int].node == a0.references@[rh as int].node
            &&& a.references@[rh as int].scope == a0.references@[rh as int].scope
            &&& a.references@[rh as int].usage_kind == a0.references@[rh as int].usage_kind
            &&& a.references@[rh as int].resolved == Some(vh)
            &&& a.variables@.len() == a0.variables@.len()
            &&& forall|j: int|
                0 <= j < a0.variables@.len() && j != v ==> a.variables@[j] == a0.variables@[j]
            &&& a.variables@[v].name == a0.variables@[v].name
            &&& a.variables@[v].definition == a0.variables@[v].definition
            &&& a.variables@[v].scope == a0.variables@[v].scope
            &&& a.variables@[v].references@ == a0.variables@[v].references@.push(rh)
            &&& a.scopes == a0.scopes
            &&& a.definitions == a0.definitions
        },
    }
}

/// The relation between the stores before and after a reference `rh` fails
/// to resolve at scope `s`: the scope records it as passed through, the
/// parent's queue gains it (where a parent exists), and nothing else moves.
pub open spec fn delegated(a0: AllArenas, a: AllArenas, s: int, rh: usize) -> bool {
    let u_opt = a0.scopes@[s].upper;
    &&& a.references == a0.references
    &&& a.variables == a0.variables
    &&& a.definitions == a0.definitions
    &&& a.scopes@.len() == a0.scopes@.len()
    &&& a.scopes@[s].through@ == a0.scopes@[s].through@.push(rh)
    &&& a.scopes@[s].kind == a0.scopes@[s].kind
    &&& a.scopes@[s].node == a0.scopes@[s].node
    &&& a.scopes@[s].upper == a0.scopes@[s].upper
    &&& a.scopes@[s].variables == a0.scopes@[s].variables
    &&& a.scopes@[s].references == a0.scopes@[s].references
    &&& a.scopes@[s].pre_resolved == a0.scopes@[s].pre_resolved
    &&& a.scopes@[s].child_scopes == a0.scopes@[s].child_scopes
    &&& (u_opt is Some ==> ({
        let u = u_opt->Some_0 as int;
        &&& a.scopes@[u].pre_resolved@ == a0.scopes@[u].pre_resolved@.push(rh)
        &&& a.scopes@[u].kind == a0.scopes@[u].kind
        &&& a.scopes@[u].node == a0.scopes@[u].node
        &&& a.scopes@[u].upper == a0.scopes@[u].upper
        &&& a.scopes@[u].variables == a0.scopes@[u].variables
        &&& a.scopes@[u].references == a0.scopes@[u].references
        &&& a.scopes@[u].through == a0.scopes@[u].through
        &&& a.scopes@[u].child_scopes == a0.scopes@[u].child_scopes
    }))
    &&& forall|j: int|
        0 <= j < a0.scopes@.len() && j != s && (u_opt is None || j != u_opt->Some_0)
            ==> a.scopes@[j] == a0.scopes@[j]
}

/// The relation between the stores before and after one reference of scope
/// `s`'s queue is tried: resolved where a match exists, delegated upward
/// otherwise.
pub open spec fn closed_one(
    a0: AllArenas,
    a: AllArenas,
    ns: Seq<SyntaxNode>,
    s: int,
    rh: usize,
) -> bool {
    if find_match(a0, ns, s, a0.references@[rh as int]) is Some {
        resolved_one(a0, a, ns, s, rh)
    } else {
        delegated(a0, a, s, rh)
    }
}

impl Scope {
    /// Tries to resolve `reference` against the declarations of scope
    /// `self_`. On a match — the first eligible same-named variable in
    /// declaration order — the reference is recorded on the variable and
    /// marked resolved.
    pub fn resolve(self_: usize, arenas: &mut AllArenas, t: &SyntaxTree, reference: usize) -> (r:
        bool)
        requires
            t.wf(),
            arenas_wf(*old(arenas), t@),
            self_ < old(arenas).scopes@.len(),
            reference < old(arenas).references@.len(),
        ensures
            arenas_wf(*final(arenas), t@),
            r == (find_match(*old(arenas), t@, self_ as int, old(arenas).references@[reference as int]) is Some),
            resolved_one(*old(arenas), *final(arenas), t@, self_ as int, reference),
    {
        let m = find_resolution(arenas, t, self_, reference);
        match m {
            None => false,
            Some(vh) => {
                proof {
                    assert(scope_ok(*arenas, t@, self_ as int));
                    lemma_find_match_props(*arenas, t@, self_ as int, arenas.references@[reference as int], 0);
                }
                arenas.variables[vh].references.push(reference);
                arenas.references[reference].resolved = Some(vh);
                proof {
                    let a0 = *old(arenas);
                    let a = *arenas;
                    assert forall|i: int| 0 <= i < a.scopes@.len() implies #[trigger] scope_ok(
                        a,
                        t@,
                        i,
                    ) by {
                        assert(scope_ok(a0, t@, i));
                    }
                    assert forall|i: int| 0 <= i < a.variables@.len() implies #[trigger] var_ok(
                        a,
                        i,
                    ) by {
                        assert(var_ok(a0, i));
                        if i == vh {
                            let v = a.variables@[i];
                            assert forall|k: int| 0 <= k < v.references@.len() implies #[trigger]
                                v.references@[k] < a.references@.len() by {
                                if k < a0.variables@[i].references@.len() {
                                    assert(a0.variables@[i].references@[k]
                                        < a0.references@.len());
                                }
                            }
                        }
                    }
                    assert forall|i: int| 0 <= i < a.references@.len() implies #[trigger] ref_ok(
                        a,
                        t@,
                        i,
                    ) by {
                        assert(ref_ok(a0, t@, i));
                    }
                    assert forall|i: int| 0 <= i < a.definitions@.len() implies #[trigger] def_ok(
                        a,
                        t@,
                        i,
                    ) by {
                        assert(def_ok(a0, t@, i));
                    }
                }
                true
            },
        }
    }

    /// Tries one queued reference at scope `self_` and, where it does not
    /// resolve, hands it to the enclosing scope's queue and records it in
    /// this scope's through trail.
    pub fn close_reference(self_: usize, arenas: &mut AllArenas, t: &SyntaxTree, reference: usize)
        requires
            t.wf(),
            arenas_wf(*old(arenas), t@),
            self_ < old(arenas).scopes@.len(),
            reference < old(arenas).references@.len(),
        ensures
            arenas_wf(*final(arenas), t@),
            closed_one(*old(arenas), *final(arenas), t@, self_ as int, reference),
    {
        if !Self::resolve(self_, arenas, t, reference) {
            Self::delegate_to_upper_scope(self_, arenas, t, reference);
        }
    }

    /// Hands an unresolved reference to the enclosing scope's queue, where
    /// one exists, and records it in this scope's through trail either way.
    fn delegate_to_upper_scope(self_: usize, arenas: &mut AllArenas, t: &SyntaxTree, reference: usize)
        requires
            t.wf(),
            arenas_wf(*old(arenas), t@),
            self_ < old(arenas).scopes@.len(),
            reference < old(arenas).references@.len(),
        ensures
            arenas_wf(*final(arenas), t@),
            delegated(*old(arenas), *final(arenas), self_ as int, reference),
    {
        proof {
            assert(scope_ok(*arenas, t@, self_ as int));
        }
        let upper = arenas.scopes[self_].upper;
        if let Some(u) = upper {
            arenas.scopes[u].pre_resolved.push(reference);
        }
        arenas.scopes[self_].through.push(reference);
        proof {
            let a0 = *old(arenas);
            let a = *arenas;
            assert forall|i: int| 0 <= i < a.scopes@.len() implies #[trigger] scope_ok(a, t@, i) by {
                assert(scope_ok(a0, t@, i));
                let s = a.scopes@[i];
                assert forall|k: int| 0 <= k < s.pre_resolved@.len() implies #[trigger]
                    s.pre_resolved@[k] < a.references@.len() by {
                    if k < a0.scopes@[i].pre_resolved@.len() {
                        assert(a0.scopes@[i].pre_resolved@[k] < a0.references@.len());
                    }
                }
                assert forall|k: int| 0 <= k < s.through@.len() implies #[trigger] s.through@[k]
                    < a.references@.len() by {
                    if k < a0.scopes@[i].through@.len() {
                        assert(a0.scopes@[i].through@[k] < a0.references@.len());
                    }
                }
            }
            assert forall|i: int| 0 <= i < a.variables@.len() implies #[trigger] var_ok(a, i) by {
                assert(var_ok(a0, i));
            }
            assert forall|i: int| 0 <= i < a.references@.len() implies #[trigger] ref_ok(a, t@, i) by {
                assert(ref_ok(a0, t@, i));
            }
            assert forall|i: int| 0 <= i < a.definitions@.len() implies #[trigger] def_ok(a, t@, i) by {
                assert(def_ok(a0, t@, i));
            }
        }
    }
}

/// The first eligible match for `reference` among the variables of scope
/// `s`, in declaration order: the first same-named variable that the
/// reference's usage kind accepts, or `None`.
pub fn find_resolution(arenas: &AllArenas, t: &SyntaxTree, s: usize, reference: usize) -> (m:
    Option<usize>)
    requires
        t.wf(),
        arenas_wf(*arenas, t@),
        s < arenas.scopes@.len(),
        reference < arenas.references@.len(),
    ensures
        m == find_match(*arenas, t@, s as int, arenas.references@[reference as int]),
        m is Some ==> m->Some_0 < arenas.variables@.len(),
    {
    proof {
        assert(scope_ok(*arenas, t@, s as int));
        assert(ref_ok(*arenas, t@, reference as int));
    }
    let r_node = arenas.references[reference].node;
    let r_scope = arenas.references[reference].scope;
    let r_usage = arenas.references[reference].usage_kind;
    let num_vars = arenas.scopes[s].variables.len();
    let ghost r = arenas.references@[reference as int];
    let mut k: usize = 0;
    while k < num_vars
        invariant
            t.wf(),
            arenas_wf(*arenas, t@),
            s < arenas.scopes@.len(),
            reference < arenas.references@.len(),
            r == arenas.references@[reference as int],
            r_node == r.node,
            r_node < t@.len(),
            r_scope == r.scope,
            r_usage == r.usage_kind,
            num_vars == arenas.scopes@[s as int].variables@.len(),
            k <= num_vars,
            find_match(*arenas, t@, s as int, r) == find_match_from(
                *arenas,
                t@,
                s as int,
                r,
                k as int,
            ),
        decreases num_vars - k,
    {
        proof {
            assert(scope_ok(*arenas, t@, s as int));
        }
        let vh = arenas.scopes[s].variables[k];
        proof {
            assert(arenas.scopes@[s as int].variables@[k as int] < arenas.variables@.len());
            assert(var_ok(*arenas, vh as int));
        }
        let name_matches = arenas.variables[vh].name == *t.text(r_node);
        if name_matches {
            let v_def = arenas.variables[vh].definition;
            let eligible = match r_usage {
                UsageKind::AttributeName => arenas.definitions[v_def].kind == DefinitionKind::Use,
                _ => !(arenas.definitions[v_def].kind == DefinitionKind::Variable) || r_scope
                    == s,
            };
            if eligible {
                proof {
                    assert(candidate(*arenas, t@, s as int, r, vh));
                }
                return Some(vh);
            }
        }
        proof {
            assert(!candidate(*arenas, t@, s as int, r, vh));
        }
        k = k + 1;
    }
    None
}

/// A found match is one of the scope's variables — in range, same-named,
/// and eligible.
pub proof fn lemma_find_match_props(a: AllArenas, ns: Seq<SyntaxNode>, s: int, r: Reference, k: int)
    requires
        arenas_wf(a, ns),
        0 <= s < a.scopes@.len(),
        find_match_from(a, ns, s, r, k) is Some,
    ensures
        find_match_from(a, ns, s, r, k)->Some_0 < a.variables@.len(),
        candidate(a, ns, s, r, find_match_from(a, ns, s, r, k)->Some_0),
    decreases a.scopes@[s].variables@.len() - k,
{
    let vars = a.scopes@[s].variables@;
    if k < 0 || k >= vars.len() {
    } else if candidate(a, ns, s, r, vars[k]) {
        assert(scope_ok(a, ns, s));
    } else {
        lemma_find_match_props(a, ns, s, r, k + 1);
    }
}



/// Of the queue entries `p`, those that find no match at scope `s` in store
/// `a0`, in queue order.
pub open spec fn unmatched_of(a0: AllArenas, ns: Seq<SyntaxNode>, s: int, p: Seq<usize>) -> Seq<
    usize,
>
    decreases p.len(),
{
    if p.len() == 0 {
        Seq::empty()
    } else {
        let rest = unmatched_of(a0, ns, s, p.drop_last());
        if find_match(a0, ns, s, a0.references@[p.last() as int]) is None {
            rest.push(p.last())
        } else {
            rest
        }
    }
}

/// Of the queue entries `p`, those whose match at scope `s` in store `a0` is
/// the variable `v`, in queue order.
pub open spec fn matched_to(
    a0: AllArenas,
    ns: Seq<SyntaxNode>,
    s: int,
    p: Seq<usize>,
    v: usize,
) -> Seq<usize>
    decreases p.len(),
{
    if p.len() == 0 {
        Seq::empty()
    } else {
        let rest = matched_to(a0, ns, s, p.drop_last(), v);
        if find_match(a0, ns, s, a0.references@[p.last() as int]) == Some(v) {
            rest.push(p.last())
        } else {
            rest
        }
    }
}

/// Extending the processed prefix by one entry extends the unmatched trail
/// exactly when that entry finds no match.
proof fn lemma_unmatched_take_step(
    a0: AllArenas,
    ns: Seq<SyntaxNode>,
    s: int,
    p: Seq<usize>,
    k: int,
)
    requires
        0 <= k < p.len(),
    ensures
        ({
            let u0 = unmatched_of(a0, ns, s, p.take(k));
            let u1 = unmatched_of(a0, ns, s, p.take(k + 1));
            if find_match(a0, ns, s, a0.references@[p[k] as int]) is None {
                u1 == u0.push(p[k])
            } else {
                u1 == u0
            }
        }),
{
    assert(p.take(k + 1).drop_last() =~= p.take(k));
    assert(p.take(k + 1).last() == p[k]);
}

/// Extending the processed prefix by one entry extends a variable's matched
/// list exactly when that entry matches that variable.
proof fn lemma_matched_take_step(
    a0: AllArenas,
    ns: Seq<SyntaxNode>,
    s: int,
    p: Seq<usize>,
    k: int,
    v: usize,
)
    requires
        0 <= k < p.len(),
    ensures
        ({
            let m0 = matched_to(a0, ns, s, p.take(k), v);
            let m1 = matched_to(a0, ns, s, p.take(k + 1), v);
            if find_match(a0, ns, s, a0.references@[p[k] as int]) == Some(v) {
                m1 == m0.push(p[k])
            } else {
                m1 == m0
            }
        }),
{
    assert(p.take(k + 1).drop_last() =~= p.take(k));
    assert(p.take(k + 1).last() == p[k]);
}

/// Every entry of the unmatched trail comes from the queue and finds no
/// match.
proof fn lemma_unmatched_props(a0: AllArenas, ns: Seq<SyntaxNode>, s: int, p: Seq<usize>)
    ensures
        ({
            let um = unmatched_of(a0, ns, s, p);
            forall|x: int|
                0 <= x < um.len() ==> p.contains(#[trigger] um[x]) && find_match(
                    a0,
                    ns,
                    s,
                    a0.references@[um[x] as int],
                ) is None
        }),
    decreases p.len(),
{
    if p.len() == 0 {
    } else {
        lemma_unmatched_props(a0, ns, s, p.drop_last());
        let um = unmatched_of(a0, ns, s, p);
        let um0 = unmatched_of(a0, ns, s, p.drop_last());
        assert forall|x: int| 0 <= x < um.len() implies p.contains(#[trigger] um[x]) && find_match(
            a0,
            ns,
            s,
            a0.references@[um[x] as int],
        ) is None by {
            if x < um0.len() {
                assert(um[x] == um0[x]);
                assert(p.drop_last().contains(um0[x]));
                let w = choose|w: int|
                    0 <= w < p.drop_last().len() && p.drop_last()[w] == um0[x];
                assert(p[w] == um0[x]);
            } else {
                assert(um[x] == p.last());
                assert(p[p.len() - 1] == p.last());
            }
        }
    }
}

/// A queue without repeated entries yields an unmatched trail without
/// repeated entries.
proof fn lemma_unmatched_distinct(a0: AllArenas, ns: Seq<SyntaxNode>, s: int, p: Seq<usize>)
    requires
        forall|x: int, y: int| 0 <= x < y < p.len() ==> p[x] != p[y],
    ensures
        ({
            let um = unmatched_of(a0, ns, s, p);
            forall|x: int, y: int| 0 <= x < y < um.len() ==> um[x] != um[y]
        }),
    decreases p.len(),
{
    if p.len() == 0 {
    } else {
        assert forall|x: int, y: int| 0 <= x < y < p.drop_last().len() implies p.drop_last()[x]
            != p.drop_last()[y] by {
            assert(p.drop_last()[x] == p[x] && p.drop_last()[y] == p[y]);
        }
        lemma_unmatched_distinct(a0, ns, s, p.drop_last());
        lemma_unmatched_props(a0, ns, s, p.drop_last());
        let um = unmatched_of(a0, ns, s, p);
        let um0 = unmatched_of(a0, ns, s, p.drop_last());
        assert forall|x: int, y: int| 0 <= x < y < um.len() implies um[x] != um[y] by {
            if y < um0.len() {
                assert(um[x] == um0[x] && um[y] == um0[y]);
            } else if y == um0.len() && um.len() == um0.len() + 1 {
                assert(um[y] == p.last());
                assert(um[x] == um0[x]);
                assert(p.drop_last().contains(um0[x]));
                let w = choose|w: int|
                    0 <= w < p.drop_last().len() && p.drop_last()[w] == um0[x];
                assert(p[w] == um0[x]);
                assert(p[w] != p[p.len() - 1]);
            }
        }
    }
}

/// The relation between the stores before and after the entries `q` of
/// scope `s`'s queue have been tried, matches against the state `a0` the
/// drain started from: every tried reference is resolved to its match or
/// recorded as passed through and handed upward, every variable's reference
/// list has grown by exactly the references that matched it, in queue
/// order, and nothing else has moved. The scope's own queue is not
/// constrained here; see [`closed_scope`].
pub open spec fn drain_effects(
    a0: AllArenas,
    a: AllArenas,
    ns: Seq<SyntaxNode>,
    s: int,
    q: Seq<usize>,
) -> bool {
    let u_opt = a0.scopes@[s].upper;
    let um = unmatched_of(a0, ns, s, q);
    &&& a.definitions == a0.definitions
    &&& a.scopes@.len() == a0.scopes@.len()
    &&& a.scopes@[s].through@ == a0.scopes@[s].through@ + um
    &&& a.scopes@[s].kind == a0.scopes@[s].kind
    &&& a.scopes@[s].node == a0.scopes@[s].node
    &&& a.scopes@[s].upper == a0.scopes@[s].upper
    &&& a.scopes@[s].variables == a0.scopes@[s].variables
    &&& a.scopes@[s].references == a0.scopes@[s].references
    &&& a.scopes@[s].child_scopes == a0.scopes@[s].child_scopes
    &&& (u_opt is Some ==> ({
        let u = u_opt->Some_0 as int;
        &&& a.scopes@[u].pre_resolved@ == a0.scopes@[u].pre_resolved@ + um
        &&& a.scopes@[u].kind == a0.scopes@[u].kind
        &&& a.scopes@[u].node == a0.scopes@[u].node
        &&& a.scopes@[u].upper == a0.scopes@[u].upper
        &&& a.scopes@[u].variables == a0.scopes@[u].variables
        &&& a.scopes@[u].references == a0.scopes@[u].references
        &&& a.scopes@[u].through == a0.scopes@[u].through
        &&& a.scopes@[u].child_scopes == a0.scopes@[u].child_scopes
    }))
    &&& forall|j: int|
        0 <= j < a0.scopes@.len() && j != s && (u_opt is None || j != u_opt->Some_0)
            ==> a.scopes@[j] == a0.scopes@[j]
    &&& a.references@.len() == a0.references@.len()
    &&& forall|j: int|
        0 <= j < a0.references@.len() && !q.contains(j as usize) ==> a.references@[j]
            == a0.references@[j]
    &&& forall|x: int|
        0 <= x < q.len() ==> ({
            let rh = #[trigger] q[x] as int;
            &&& a.references@[rh].node == a0.references@[rh].node
            &&& a.references@[rh].scope == a0.references@[rh].scope
            &&& a.references@[rh].usage_kind == a0.references@[rh].usage_kind
            &&& a.references@[rh].resolved == find_match(a0, ns, s, a0.references@[rh])
        })
    &&& a.variables@.len() == a0.variables@.len()
    &&& forall|j: int|
        0 <= j < a0.variables@.len() ==> ({
            let v = #[trigger] a.variables@[j];
            &&& v.name == a0.variables@[j].name
            &&& v.definition == a0.variables@[j].definition
            &&& v.scope == a0.variables@[j].scope
            &&& v.references@ == a0.variables@[j].references@ + matched_to(a0, ns, s, q, j as usize)
        })
}

/// The relation between the stores before and after scope `s` closes: its
/// whole queue has been drained in arrival order and the queue is empty for
/// good.
pub open spec fn closed_scope(a0: AllArenas, a: AllArenas, ns: Seq<SyntaxNode>, s: int) -> bool {
    &&& drain_effects(a0, a, ns, s, a0.scopes@[s].pre_resolved@)
    &&& a.scopes@[s].pre_resolved@ == Seq::<usize>::empty()
}

impl Scope {
    /// Closes scope `self_`: drains its queue once, in the order the
    /// references arrived, resolving each against this scope or handing it
    /// to the enclosing scope's queue, then empties the queue for good.
    pub fn close(self_: usize, arenas: &mut AllArenas, t: &SyntaxTree)
        requires
            t.wf(),
            state_ok(*old(arenas), t@),
            self_ < old(arenas).scopes@.len(),
        ensures
            state_ok(*final(arenas), t@),
            closed_scope(*old(arenas), *final(arenas), t@, self_ as int),
    {
        let ghost a0 = *old(arenas);
        let ghost p = a0.scopes@[self_ as int].pre_resolved@;
        let s = self_;
        let pending_len = arenas.scopes[s].pre_resolved.len();
        proof {
            assert(a0.variables@.len() == a0.variables.len());
            assert(a0.references@.len() == a0.references.len());
            assert(p.take(0) =~= Seq::<usize>::empty());
            assert(a0.scopes@[s as int].through@ + unmatched_of(a0, t@, s as int, p.take(0))
                =~= a0.scopes@[s as int].through@);
            if a0.scopes@[s as int].upper is Some {
                let u = a0.scopes@[s as int].upper->Some_0 as int;
                assert(a0.scopes@[u].pre_resolved@ + unmatched_of(a0, t@, s as int, p.take(0))
                    =~= a0.scopes@[u].pre_resolved@);
            }
            assert forall|j: int| 0 <= j < a0.variables@.len() implies (#[trigger] a0.variables@[j]).references@
                == a0.variables@[j].references@ + matched_to(a0, t@, s as int, p.take(0), j as usize) by {
                assert(a0.variables@[j].references@ + matched_to(a0, t@, s as int, p.take(0), j as usize)
                    =~= a0.variables@[j].references@);
            }
            assert(drain_effects(a0, a0, t@, s as int, p.take(0)));
        }
        let mut k: usize = 0;
        while k < pending_len
            invariant
                t.wf(),
                arenas_wf(*arenas, t@),
                state_ok(a0, t@),
                a0 == *old(arenas),
                s < a0.scopes@.len(),
                p == a0.scopes@[s as int].pre_resolved@,
                pending_len == p.len(),
                k <= pending_len,
                a0.variables@.len() <= usize::MAX,
                a0.references@.len() <= usize::MAX,
                arenas.scopes@.len() == a0.scopes@.len(),
                arenas.scopes@[s as int].pre_resolved == a0.scopes@[s as int].pre_resolved,
                drain_effects(a0, *arenas, t@, s as int, p.take(k as int)),
            decreases pending_len - k,
        {
            proof {
                assert(scope_ok(*arenas, t@, s as int));
            }
            let rh = arenas.scopes[s].pre_resolved[k];
            let ghost before = *arenas;
            let ghost r0 = a0.references@[rh as int];
            proof {
                // the reference's own fields are as the drain found them
                if p.take(k as int).contains(rh) {
                    let x = choose|x: int|
                        0 <= x < p.take(k as int).len() && p.take(k as int)[x] == rh;
                    assert(p.take(k as int)[x] == rh);
                } else {
                    assert(scope_ok(a0, t@, s as int));
                    assert(before.references@[rh as int] == a0.references@[rh as int]);
                }
                lemma_find_match_from_stable(
                    a0,
                    before,
                    t@,
                    s as int,
                    r0,
                    before.references@[rh as int],
                    0,
                );
            }
            Scope::close_reference(s, arenas, t, rh);
            proof {
                let a1 = *arenas;
                let qk = p.take(k as int);
                let qk1 = p.take(k as int + 1);
                let m = find_match(a0, t@, s as int, r0);
                assert(p[k as int] == rh);
                lemma_unmatched_take_step(a0, t@, s as int, p, k as int);
                // the reference was queued, so it was unresolved when the drain began
                assert(a0.references@[a0.scopes@[s as int].pre_resolved@[k as int] as int].resolved
                    is None);
                assert(closed_one(before, a1, t@, s as int, rh));
                if m is Some {
                    let vh = m->Some_0;
                    assert(resolved_one(before, a1, t@, s as int, rh));
                    lemma_find_match_props(a0, t@, s as int, r0, 0);
                    // the through trail and queues are untouched on a match
                    assert(a1.scopes == before.scopes);
                    // references: the processed one now points at its match
                    assert forall|x: int| 0 <= x < qk1.len() implies ({
                        let rr = #[trigger] qk1[x] as int;
                        &&& a1.references@[rr].node == a0.references@[rr].node
                        &&& a1.references@[rr].scope == a0.references@[rr].scope
                        &&& a1.references@[rr].usage_kind == a0.references@[rr].usage_kind
                        &&& a1.references@[rr].resolved == find_match(a0, t@, s as int, a0.references@[rr])
                    }) by {
                        assert(qk1[x] == p[x]);
                        if x < k as int {
                            assert(qk[x] == p[x]);
                            if p[x] == rh {
                                assert(find_match(a0, t@, s as int, a0.references@[rh as int]) == m);
                            } else {
                                assert(a1.references@[p[x] as int] == before.references@[p[x] as int]);
                            }
                        } else {
                            assert(qk1[x] == rh);
                        }
                    }
                    assert forall|j: int|
                        0 <= j < a0.references@.len() && !qk1.contains(j as usize) implies a1.references@[j]
                        == a0.references@[j] by {
                        assert(qk1[k as int] == rh);
                        assert(qk1.contains(rh));
                        assert(j != rh);
                        assert forall|x: int| 0 <= x < qk.len() implies qk[x] != j as usize by {
                            assert(qk1[x] == qk[x]);
                        }
                        assert(!qk.contains(j as usize));
                        assert(a1.references@[j] == before.references@[j]);
                    }
                    // variables: the match's list grows by the processed entry
                    assert forall|j: int| 0 <= j < a0.variables@.len() implies ({
                        let v = #[trigger] a1.variables@[j];
                        &&& v.name == a0.variables@[j].name
                        &&& v.definition == a0.variables@[j].definition
                        &&& v.scope == a0.variables@[j].scope
                        &&& v.references@ == a0.variables@[j].references@ + matched_to(a0, t@, s as int, qk1, j as usize)
                    }) by {
                        lemma_matched_take_step(a0, t@, s as int, p, k as int, j as usize);
                        if j == vh as int {
                            assert(a1.variables@[j].references@ == before.variables@[j].references@.push(rh));
                            assert((a0.variables@[j].references@ + matched_to(a0, t@, s as int, qk, j as usize)).push(rh)
                                =~= a0.variables@[j].references@ + matched_to(a0, t@, s as int, qk, j as usize).push(rh));
                        } else {
                            assert(a1.variables@[j] == before.variables@[j]);
                        }
                    }
                    assert(drain_effects(a0, a1, t@, s as int, qk1));
                } else {
                    assert(delegated(before, a1, s as int, rh));
                    // the trail and the parent queue grow by the processed entry
                    assert(a1.scopes@[s as int].through@ == before.scopes@[s as int].through@.push(rh));
                    assert((a0.scopes@[s as int].through@ + unmatched_of(a0, t@, s as int, qk)).push(rh)
                        =~= a0.scopes@[s as int].through@ + unmatched_of(a0, t@, s as int, qk).push(rh));
                    if a0.scopes@[s as int].upper is Some {
                        let u = a0.scopes@[s as int].upper->Some_0 as int;
                        assert((a0.scopes@[u].pre_resolved@ + unmatched_of(a0, t@, s as int, qk)).push(rh)
                            =~= a0.scopes@[u].pre_resolved@ + unmatched_of(a0, t@, s as int, qk).push(rh));
                    }
                    assert forall|x: int| 0 <= x < qk1.len() implies ({
                        let rr = #[trigger] qk1[x] as int;
                        &&& a1.references@[rr].node == a0.references@[rr].node
                        &&& a1.references@[rr].scope == a0.references@[rr].scope
                        &&& a1.references@[rr].usage_kind == a0.references@[rr].usage_kind
                        &&& a1.references@[rr].resolved == find_match(a0, t@, s as int, a0.references@[rr])
                    }) by {
                        assert(qk1[x] == p[x]);
                        if x < k as int {
                            assert(qk[x] == p[x]);
                        } else {
                            assert(qk1[x] == rh);
                            assert(a1.references@[rh as int] == before.references@[rh as int]);
                        }
                    }
                    assert forall|j: int|
                        0 <= j < a0.references@.len() && !qk1.contains(j as usize) implies a1.references@[j]
                        == a0.references@[j] by {
                        assert forall|x: int| 0 <= x < qk.len() implies qk[x] != j as usize by {
                            assert(qk1[x] == qk[x]);
                        }
                        assert(!qk.contains(j as usize));
                    }
                    assert forall|j: int| 0 <= j < a0.variables@.len() implies ({
                        let v = #[trigger] a1.variables@[j];
                        &&& v.name == a0.variables@[j].name
                        &&& v.definition == a0.variables@[j].definition
                        &&& v.scope == a0.variables@[j].scope
                        &&& v.references@ == a0.variables@[j].references@ + matched_to(a0, t@, s as int, qk1, j as usize)
                    }) by {
                        lemma_matched_take_step(a0, t@, s as int, p, k as int, j as usize);
                        assert(a1.variables@[j] == before.variables@[j]);
                    }
                    assert(drain_effects(a0, a1, t@, s as int, qk1));
                }
            }
            k = k + 1;
        }
        proof {
            assert(p.take(pending_len as int) =~= p);
            assert(drain_effects(a0, *arenas, t@, s as int, p));
        }
        let ghost drained = *arenas;
        arenas.scopes[s].pre_resolved.clear();
        proof {
            let a = *arenas;
            assert(scope_ok(a0, t@, s as int));
            assert(a.scopes@[s as int].pre_resolved@ =~= Seq::<usize>::empty());
            assert forall|j: int|
                0 <= j < a.scopes@.len() && j != s as int implies a.scopes@[j]
                == drained.scopes@[j] by {}
            assert(a.scopes@[s as int].through == drained.scopes@[s as int].through);
            assert(drain_effects(a0, a, t@, s as int, p));
            let um = unmatched_of(a0, t@, s as int, p);
            lemma_unmatched_props(a0, t@, s as int, p);
            assert forall|x: int, y: int| 0 <= x < y < p.len() implies p[x] != p[y] by {
                assert(a0.scopes@[s as int].pre_resolved@[x] != a0.scopes@[s as int].pre_resolved@[y]);
            }
            lemma_unmatched_distinct(a0, t@, s as int, p);
            // handles in range
            assert forall|i: int| 0 <= i < a.scopes@.len() implies #[trigger] scope_ok(a, t@, i) by {
                assert(scope_ok(drained, t@, i));
                let sc = a.scopes@[i];
                assert forall|kk: int| 0 <= kk < sc.pre_resolved@.len() implies #[trigger]
                    sc.pre_resolved@[kk] < a.references@.len() by {
                    assert(drained.scopes@[i].pre_resolved@[kk] < drained.references@.len());
                }
            }
            assert forall|i: int| 0 <= i < a.variables@.len() implies #[trigger] var_ok(a, i) by {
                assert(var_ok(drained, i));
            }
            assert forall|i: int| 0 <= i < a.references@.len() implies #[trigger] ref_ok(a, t@, i) by {
                assert(ref_ok(drained, t@, i));
            }
            assert forall|i: int| 0 <= i < a.definitions@.len() implies #[trigger] def_ok(a, t@, i) by {
                assert(def_ok(drained, t@, i));
            }
            // queued references stay unresolved
            let u_opt = a0.scopes@[s as int].upper;
            assert forall|i: int, kk: int|
                #![trigger a.scopes@[i].pre_resolved@[kk]]
                0 <= i < a.scopes@.len() && 0 <= kk < a.scopes@[i].pre_resolved@.len() implies a.references@[a.scopes@[i].pre_resolved@[kk] as int].resolved is None by {
                assert(i != s as int);
                let e = a.scopes@[i].pre_resolved@[kk];
                if u_opt is Some && i == u_opt->Some_0 as int {
                    let old_len = a0.scopes@[i].pre_resolved@.len() as int;
                    if kk < old_len {
                        assert(e == a0.scopes@[i].pre_resolved@[kk]);
                        assert(scope_ok(a0, t@, i));
                        assert(e < a0.references@.len());
                        assert forall|x: int| 0 <= x < p.len() implies p[x] != e by {
                            assert(a0.scopes@[s as int].pre_resolved@[x]
                                != a0.scopes@[i].pre_resolved@[kk]);
                        }
                        assert(!p.contains(e));
                        assert(a.references@[e as int] == a0.references@[e as int]);
                        assert(a0.references@[a0.scopes@[i].pre_resolved@[kk] as int].resolved is None);
                    } else {
                        assert(e == um[kk - old_len]);
                        assert(p.contains(e));
                        let x = choose|x: int| 0 <= x < p.len() && p[x] == e;
                        assert(a.references@[e as int].resolved == find_match(a0, t@, s as int, a0.references@[e as int]));
                        assert(find_match(a0, t@, s as int, a0.references@[e as int]) is None);
                    }
                } else {
                    assert(a.scopes@[i] == a0.scopes@[i]);
                    assert(e == a0.scopes@[i].pre_resolved@[kk]);
                    assert(scope_ok(a0, t@, i));
                    assert(e < a0.references@.len());
                    assert forall|x: int| 0 <= x < p.len() implies p[x] != e by {
                        assert(a0.scopes@[s as int].pre_resolved@[x]
                            != a0.scopes@[i].pre_resolved@[kk]);
                    }
                    assert(!p.contains(e));
                    assert(a.references@[e as int] == a0.references@[e as int]);
                    assert(a0.references@[a0.scopes@[i].pre_resolved@[kk] as int].resolved is None);
                }
            }
            // every reference still queued in at most one place
            assert forall|i1: int, k1: int, i2: int, k2: int|
                #![trigger a.scopes@[i1].pre_resolved@[k1], a.scopes@[i2].pre_resolved@[k2]]
                0 <= i1 < a.scopes@.len() && 0 <= k1 < a.scopes@[i1].pre_resolved@.len() && 0 <= i2
                    < a.scopes@.len() && 0 <= k2 < a.scopes@[i2].pre_resolved@.len() && !(i1 == i2
                    && k1 == k2) implies a.scopes@[i1].pre_resolved@[k1]
                != a.scopes@[i2].pre_resolved@[k2] by {
                assert(i1 != s as int && i2 != s as int);
                let e1 = a.scopes@[i1].pre_resolved@[k1];
                let e2 = a.scopes@[i2].pre_resolved@[k2];
                let in_u1 = u_opt is Some && i1 == u_opt->Some_0 as int;
                let in_u2 = u_opt is Some && i2 == u_opt->Some_0 as int;
                let new1 = in_u1 && k1 >= a0.scopes@[i1].pre_resolved@.len();
                let new2 = in_u2 && k2 >= a0.scopes@[i2].pre_resolved@.len();
                if new1 && new2 {
                    let old_len = a0.scopes@[i1].pre_resolved@.len() as int;
                    assert(e1 == um[k1 - old_len] && e2 == um[k2 - old_len]);
                } else if new1 {
                    let old_len = a0.scopes@[i1].pre_resolved@.len() as int;
                    assert(e1 == um[k1 - old_len]);
                    assert(p.contains(e1));
                    let x = choose|x: int| 0 <= x < p.len() && p[x] == e1;
                    assert(e2 == a0.scopes@[i2].pre_resolved@[k2]);
                    assert(a0.scopes@[s as int].pre_resolved@[x] != a0.scopes@[i2].pre_resolved@[k2]);
                } else if new2 {
                    let old_len = a0.scopes@[i2].pre_resolved@.len() as int;
                    assert(e2 == um[k2 - old_len]);
                    assert(p.contains(e2));
                    let x = choose|x: int| 0 <= x < p.len() && p[x] == e2;
                    assert(e1 == a0.scopes@[i1].pre_resolved@[k1]);
                    assert(a0.scopes@[s as int].pre_resolved@[x] != a0.scopes@[i1].pre_resolved@[k1]);
                } else {
                    assert(e1 == a0.scopes@[i1].pre_resolved@[k1]);
                    assert(e2 == a0.scopes@[i2].pre_resolved@[k2]);
                }
            }
        }
    }
}


} // verus!
