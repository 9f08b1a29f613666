//! The append-only stores that own every entity of one analysis run.
//!
//! All cross-entity relationships are handles — indices into these stores —
//! never owning pointers, so scopes, variables and references may refer to
//! each other in cycles. Nothing is ever removed.

use vstd::prelude::*;

use crate::definition::Definition;
use crate::reference::Reference;
use crate::scope::Scope;
use crate::tree::SyntaxNode;
use crate::variable::Variable;

verus! {

/// The four entity stores of one analysis run.
pub struct AllArenas {
    /// All scopes, in creation order.
    pub scopes: Vec<Scope>,
    /// All declaration records, in creation order.
    pub definitions: Vec<Definition>,
    /// All declared names, in creation order.
    pub variables: Vec<Variable>,
    /// All usage records, in creation order.
    pub references: Vec<Reference>,
}

impl AllArenas {
    /// Four empty stores.
    pub fn new() -> (a: AllArenas)
        ensures
            a.scopes@ == Seq::<Scope>::empty(),
            a.definitions@ == Seq::<Definition>::empty(),
            a.variables@ == Seq::<Variable>::empty(),
            a.references@ == Seq::<Reference>::empty(),
    {
        AllArenas {
            scopes: Vec::new(),
            definitions: Vec::new(),
            variables: Vec::new(),
            references: Vec::new(),
        }
    }
}

/// Every handle held by scope `i` is in range, and its parent was created
/// before it.
pub open spec fn scope_ok(a: AllArenas, ns: Seq<SyntaxNode>, i: int) -> bool {
    let s = a.scopes@[i];
    &&& s.node < ns.len()
    &&& (s.upper is Some ==> s.upper->Some_0 < i)
    &&& forall|k: int| 0 <= k < s.variables@.len() ==> #[trigger] s.variables@[k] < a.variables@.len()
    &&& forall|k: int|
        0 <= k < s.references@.len() ==> #[trigger] s.references@[k] < a.references@.len()
    &&& forall|k: int|
        0 <= k < s.pre_resolved@.len() ==> #[trigger] s.pre_resolved@[k] < a.references@.len()
    &&& forall|k: int| 0 <= k < s.through@.len() ==> #[trigger] s.through@[k] < a.references@.len()
    &&& forall|k: int|
        0 <= k < s.child_scopes@.len() ==> #[trigger] s.child_scopes@[k] < a.scopes@.len()
}

/// Every handle held by variable `i` is in range.
pub open spec fn var_ok(a: AllArenas, i: int) -> bool {
    let v = a.variables@[i];
    &&& v.definition < a.definitions@.len()
    &&& v.scope < a.scopes@.len()
    &&& forall|k: int| 0 <= k < v.references@.len() ==> #[trigger] v.references@[k] < a.references@.len()
}

/// Every handle held by reference `i` is in range.
pub open spec fn ref_ok(a: AllArenas, ns: Seq<SyntaxNode>, i: int) -> bool {
    let r = a.references@[i];
    &&& r.node < ns.len()
    &&& r.scope < a.scopes@.len()
    &&& (r.resolved is Some ==> r.resolved->Some_0 < a.variables@.len())
}

/// Every node held by definition `i` is in range.
pub open spec fn def_ok(a: AllArenas, ns: Seq<SyntaxNode>, i: int) -> bool {
    let d = a.definitions@[i];
    &&& d.name < ns.len()
    &&& d.node < ns.len()
}

/// Every handle in every store is in range for the stores and the tree.
pub open spec fn arenas_wf(a: AllArenas, ns: Seq<SyntaxNode>) -> bool {
    &&& forall|i: int| 0 <= i < a.scopes@.len() ==> #[trigger] scope_ok(a, ns, i)
    &&& forall|i: int| 0 <= i < a.variables@.len() ==> #[trigger] var_ok(a, i)
    &&& forall|i: int| 0 <= i < a.references@.len() ==> #[trigger] ref_ok(a, ns, i)
    &&& forall|i: int| 0 <= i < a.definitions@.len() ==> #[trigger] def_ok(a, ns, i)
}

/// Every reference still queued for resolution is unresolved.
pub open spec fn pending_unresolved(a: AllArenas) -> bool {
    forall|i: int, k: int|
        #![trigger a.scopes@[i].pre_resolved@[k]]
        0 <= i < a.scopes@.len() && 0 <= k < a.scopes@[i].pre_resolved@.len()
            ==> a.references@[a.scopes@[i].pre_resolved@[k] as int].resolved is None
}

/// Every reference sits in at most one resolution queue, at most once: a
/// reference waits in exactly one place at a time while it bubbles upward.
pub open spec fn pending_once(a: AllArenas) -> bool {
    forall|i1: int, k1: int, i2: int, k2: int|
        #![trigger a.scopes@[i1].pre_resolved@[k1], a.scopes@[i2].pre_resolved@[k2]]
        0 <= i1 < a.scopes@.len() && 0 <= k1 < a.scopes@[i1].pre_resolved@.len() && 0 <= i2
            < a.scopes@.len() && 0 <= k2 < a.scopes@[i2].pre_resolved@.len() && !(i1 == i2 && k1
            == k2) ==> a.scopes@[i1].pre_resolved@[k1] != a.scopes@[i2].pre_resolved@[k2]
}

/// The well-formedness every operation of the analysis preserves: handles in
/// range, queued references unresolved, and every reference queued in at
/// most one place.
pub open spec fn state_ok(a: AllArenas, ns: Seq<SyntaxNode>) -> bool {
    &&& arenas_wf(a, ns)
    &&& pending_unresolved(a)
    &&& pending_once(a)
}

} // verus!
