//! Properties of the resolution algorithm, stated and proved over the same
//! spec functions the operations' contracts use.

use vstd::prelude::*;

use crate::arenas::{arenas_wf, scope_ok, AllArenas};
use crate::definition::{DefinitionKind, Visibility};
use crate::reference::{Reference, UsageKind};
use crate::scope::{
    candidate, closed_scope, defined, find_match, find_match_from, matched_to, ref_name,
    unmatched_of,
};
use crate::tree::SyntaxNode;

verus! {

/// Recording a declaration that is not a discard name produces exactly one
/// new variable, in the enclosing scope, whose definition carries the
/// declaring construct's kind and name node, and which starts with no
/// resolved references.
pub proof fn law_declaration_creates_one_variable(
    a0: AllArenas,
    a: AllArenas,
    ns: Seq<SyntaxNode>,
    s: int,
    kind: DefinitionKind,
    vis: Visibility,
    name: usize,
    node: usize,
)
    requires
        defined(a0, a, ns, s, kind, vis, name, node),
    ensures
        a.variables@.len() == a0.variables@.len() + 1,
        a.definitions@.len() == a0.definitions@.len() + 1,
        ({
            let v = a.variables@[a0.variables@.len() as int];
            let d = a.definitions@[v.definition as int];
            &&& v.name@ == ns[name as int].text@
            &&& v.scope == s
            &&& v.references@ == Seq::<usize>::empty()
            &&& d.kind == kind
            &&& d.name == name
            &&& d.node == node
        }),
        a.scopes@[s].variables@ == a0.scopes@[s].variables@.push(a0.variables@.len() as usize),
{
}

/// Where some variable from position `j` on is a candidate, the search
/// succeeds.
proof fn lemma_find_match_finds(
    a: AllArenas,
    ns: Seq<SyntaxNode>,
    s: int,
    r: Reference,
    k: int,
    j: int,
)
    requires
        0 <= s < a.scopes@.len(),
        0 <= k <= j < a.scopes@[s].variables@.len(),
        candidate(a, ns, s, r, a.scopes@[s].variables@[j]),
    ensures
        find_match_from(a, ns, s, r, k) is Some,
    decreases j - k,
{
    let vars = a.scopes@[s].variables@;
    if candidate(a, ns, s, r, vars[k]) {
    } else {
        lemma_find_match_finds(a, ns, s, r, k + 1, j);
    }
}

/// Where no variable from position `k` on is a candidate, the search fails.
proof fn lemma_find_match_none(a: AllArenas, ns: Seq<SyntaxNode>, s: int, r: Reference, k: int)
    requires
        0 <= s < a.scopes@.len(),
        forall|j: int|
            k <= j < a.scopes@[s].variables@.len() ==> !candidate(
                a,
                ns,
                s,
                r,
                #[trigger] a.scopes@[s].variables@[j],
            ),
    ensures
        find_match_from(a, ns, s, r, k) is None,
    decreases a.scopes@[s].variables@.len() - k,
{
    let vars = a.scopes@[s].variables@;
    if k < 0 || k >= vars.len() {
    } else {
        lemma_find_match_none(a, ns, s, r, k + 1);
    }
}

/// A reference to a name declared in its own scope resolves: every
/// same-named variable of the reference's own scope is an eligible match,
/// whatever kind of declaration produced it.
pub proof fn law_same_scope_reference_resolves(
    a: AllArenas,
    ns: Seq<SyntaxNode>,
    s: int,
    r: Reference,
    j: int,
)
    requires
        arenas_wf(a, ns),
        0 <= s < a.scopes@.len(),
        r.scope == s,
        r.usage_kind == UsageKind::IdentifierReference,
        0 <= j < a.scopes@[s].variables@.len(),
        a.variables@[a.scopes@[s].variables@[j] as int].name@ == ref_name(ns, r),
    ensures
        find_match(a, ns, s, r) is Some,
        candidate(a, ns, s, r, find_match(a, ns, s, r)->Some_0),
        a.variables@[find_match(a, ns, s, r)->Some_0 as int].name@ == ref_name(ns, r),
{
    assert(scope_ok(a, ns, s));
    let vh = a.scopes@[s].variables@[j];
    assert(candidate(a, ns, s, r, vh));
    lemma_find_match_finds(a, ns, s, r, 0, j);
    crate::scope::lemma_find_match_props(a, ns, s, r, 0);
}

/// A module-level declaration — any declaration that is not a plain local
/// binding — is found from however far inside: its eligibility does not
/// depend on the reference's own scope.
pub proof fn law_outer_declaration_found_from_inner(
    a: AllArenas,
    ns: Seq<SyntaxNode>,
    s: int,
    r: Reference,
    j: int,
)
    requires
        arenas_wf(a, ns),
        0 <= s < a.scopes@.len(),
        r.usage_kind == UsageKind::IdentifierReference || r.usage_kind == UsageKind::Macro,
        0 <= j < a.scopes@[s].variables@.len(),
        a.variables@[a.scopes@[s].variables@[j] as int].name@ == ref_name(ns, r),
        a.definitions@[a.variables@[a.scopes@[s].variables@[j] as int].definition as int].kind
            != DefinitionKind::Variable,
    ensures
        find_match(a, ns, s, r) is Some,
{
    assert(scope_ok(a, ns, s));
    let vh = a.scopes@[s].variables@[j];
    assert(candidate(a, ns, s, r, vh));
    lemma_find_match_finds(a, ns, s, r, 0, j);
}

/// A plain local binding is visible only within its own scope: where every
/// same-named variable of a scope is a local binding and the reference
/// originates elsewhere, resolution fails at that scope and the reference
/// bubbles on.
pub proof fn law_local_binding_not_visible_outside(
    a: AllArenas,
    ns: Seq<SyntaxNode>,
    s: int,
    r: Reference,
)
    requires
        arenas_wf(a, ns),
        0 <= s < a.scopes@.len(),
        r.scope != s,
        r.usage_kind == UsageKind::IdentifierReference || r.usage_kind == UsageKind::Macro,
        forall|j: int|
            0 <= j < a.scopes@[s].variables@.len() ==> ({
                let v = a.variables@[(#[trigger] a.scopes@[s].variables@[j]) as int];
                v.name@ == ref_name(ns, r) ==> a.definitions@[v.definition as int].kind
                    == DefinitionKind::Variable
            }),
    ensures
        find_match(a, ns, s, r) is None,
{
    assert(scope_ok(a, ns, s));
    assert forall|j: int| 0 <= j < a.scopes@[s].variables@.len() implies !candidate(
        a,
        ns,
        s,
        r,
        #[trigger] a.scopes@[s].variables@[j],
    ) by {
        let vh = a.scopes@[s].variables@[j];
        assert(a.scopes@[s].variables@[j] < a.variables@.len());
    }
    lemma_find_match_none(a, ns, s, r, 0);
}

/// A name in attribute position resolves only to an import definition: a
/// same-named declaration of any other kind is never an eligible match,
/// however close it stands.
pub proof fn law_attribute_resolves_only_to_imports(
    a: AllArenas,
    ns: Seq<SyntaxNode>,
    s: int,
    r: Reference,
)
    requires
        arenas_wf(a, ns),
        0 <= s < a.scopes@.len(),
        r.usage_kind == UsageKind::AttributeName,
        find_match(a, ns, s, r) is Some,
    ensures
        ({
            let v = a.variables@[find_match(a, ns, s, r)->Some_0 as int];
            a.definitions@[v.definition as int].kind == DefinitionKind::Use
        }),
{
    crate::scope::lemma_find_match_props(a, ns, s, r, 0);
}

/// A reference whose queue entry matched a variable is recorded on that
/// variable's reference list when the scope closes.
pub proof fn law_match_recorded_on_variable(
    a0: AllArenas,
    ns: Seq<SyntaxNode>,
    s: int,
    p: Seq<usize>,
    v: usize,
    x: int,
)
    requires
        0 <= x < p.len(),
        find_match(a0, ns, s, a0.references@[p[x] as int]) == Some(v),
    ensures
        matched_to(a0, ns, s, p, v).contains(p[x]),
    decreases p.len(),
{
    if x == p.len() - 1 {
        assert(matched_to(a0, ns, s, p, v).last() == p.last());
    } else {
        law_match_recorded_on_variable(a0, ns, s, p.drop_last(), v, x);
        let m0 = matched_to(a0, ns, s, p.drop_last(), v);
        assert(p.drop_last()[x] == p[x]);
        let w = choose|w: int| 0 <= w < m0.len() && m0[w] == p[x];
        if find_match(a0, ns, s, a0.references@[p.last() as int]) == Some(v) {
            assert(matched_to(a0, ns, s, p, v)[w] == p[x]);
        } else {
            assert(matched_to(a0, ns, s, p, v)[w] == p[x]);
        }
    }
}

/// A reference whose queue entry found no match is recorded in the scope's
/// passed-through trail when the scope closes.
pub proof fn law_unresolved_reference_passes_through(
    a0: AllArenas,
    ns: Seq<SyntaxNode>,
    s: int,
    p: Seq<usize>,
    x: int,
)
    requires
        0 <= x < p.len(),
        find_match(a0, ns, s, a0.references@[p[x] as int]) is None,
    ensures
        unmatched_of(a0, ns, s, p).contains(p[x]),
    decreases p.len(),
{
    if x == p.len() - 1 {
        assert(unmatched_of(a0, ns, s, p).last() == p.last());
    } else {
        law_unresolved_reference_passes_through(a0, ns, s, p.drop_last(), x);
        let u0 = unmatched_of(a0, ns, s, p.drop_last());
        assert(p.drop_last()[x] == p[x]);
        let w = choose|w: int| 0 <= w < u0.len() && u0[w] == p[x];
        if find_match(a0, ns, s, a0.references@[p.last() as int]) is None {
            assert(unmatched_of(a0, ns, s, p)[w] == p[x]);
        } else {
            assert(unmatched_of(a0, ns, s, p)[w] == p[x]);
        }
    }
}


/// Draining a scope is deterministic: any two stores that stand in the
/// close relation to the same starting store agree on every observable
/// outcome — which references resolved to which variables, every
/// variable's reference list, and the scope's passed-through trail. The
/// analysis is a function of its input, never of allocation or iteration
/// order.
pub proof fn law_close_outcome_determined(
    a0: AllArenas,
    a1: AllArenas,
    a2: AllArenas,
    ns: Seq<SyntaxNode>,
    s: int,
)
    requires
        arenas_wf(a0, ns),
        0 <= s < a0.scopes@.len(),
        closed_scope(a0, a1, ns, s),
        closed_scope(a0, a2, ns, s),
    ensures
        a1.scopes@[s].through@ == a2.scopes@[s].through@,
        a1.references@.len() == a2.references@.len(),
        forall|j: int|
            0 <= j < a0.references@.len() ==> a1.references@[j].resolved == (#[trigger] a2.references@[j]).resolved,
        a1.variables@.len() == a2.variables@.len(),
        forall|j: int|
            0 <= j < a0.variables@.len() ==> a1.variables@[j].references@ == (#[trigger] a2.variables@[j]).references@,
{
    assert(scope_ok(a0, ns, s));
    let p = a0.scopes@[s].pre_resolved@;
    assert forall|j: int|
        0 <= j < a0.references@.len() implies a1.references@[j].resolved == (#[trigger] a2.references@[j]).resolved by {
        if p.contains(j as usize) {
            let x = choose|x: int| 0 <= x < p.len() && p[x] == j as usize;
            assert(a1.references@[p[x] as int].resolved == find_match(
                a0,
                ns,
                s,
                a0.references@[p[x] as int],
            ));
            assert(a2.references@[p[x] as int].resolved == find_match(
                a0,
                ns,
                s,
                a0.references@[p[x] as int],
            ));
            assert(a0.references@.len() == a0.references.len());
            assert(p[x] as int == j);
        } else {
            assert(a1.references@[j] == a0.references@[j]);
            assert(a2.references@[j] == a0.references@[j]);
        }
    }
    assert forall|j: int|
        0 <= j < a0.variables@.len() implies a1.variables@[j].references@ == (#[trigger] a2.variables@[j]).references@ by {
        assert(a1.variables@[j].references@ == a0.variables@[j].references@ + matched_to(
            a0,
            ns,
            s,
            p,
            j as usize,
        ));
        assert(a2.variables@[j].references@ == a0.variables@[j].references@ + matched_to(
            a0,
            ns,
            s,
            p,
            j as usize,
        ));
    }
}


} // verus!
