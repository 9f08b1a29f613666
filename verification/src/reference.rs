//! Usage-site records: where a name is used, in which syntactic role, and
//! which variable the use resolved to, once it has.

use vstd::prelude::*;

verus! {

/// The syntactic role of a usage, which constrains the declarations it may
/// resolve to.
#[derive(Clone, Copy, Debug, PartialEq, Eq, Structural)]
pub enum UsageKind {
    /// A value, type, or path-leading name position.
    IdentifierReference,
    /// A name in attribute position; resolves only to import definitions.
    AttributeName,
    /// A name in macro-invocation position.
    Macro,
}

/// The record of one usage site.
#[derive(Debug)]
pub struct Reference {
    /// The node naming the used identifier.
    pub node: usize,
    /// The scope the usage originates in.
    pub scope: usize,
    /// The variable the usage resolved to; `None` until resolution succeeds,
    /// and forever where no enclosing scope declares the name.
    pub resolved: Option<usize>,
    /// The syntactic role of the usage.
    pub usage_kind: UsageKind,
}

impl Reference {
    /// Appends a new, unresolved reference record to the store and returns
    /// its handle.
    pub fn new(
        references: &mut Vec<Reference>,
        usage_kind: UsageKind,
        node: usize,
        scope: usize,
    ) -> (id: usize)
        ensures
            id == old(references)@.len(),
            final(references)@.len() == old(references)@.len() + 1,
            final(references)@[id as int].node == node,
            final(references)@[id as int].scope == scope,
            final(references)@[id as int].resolved is None,
            final(references)@[id as int].usage_kind == usage_kind,
            forall|j: int|
                0 <= j < old(references)@.len() ==> final(references)@[j] == old(references)@[j],
    {
        let id = references.len();
        references.push(Reference { node, scope, resolved: None, usage_kind });
        id
    }

    /// The variable this reference resolved to, if any.
    pub fn resolved(&self) -> (r: Option<usize>)
        ensures
            r == self.resolved,
    {
        self.resolved
    }

    /// The node naming the used identifier.
    pub fn node(&self) -> (n: usize)
        ensures
            n == self.node,
    {
        self.node
    }

    /// The scope the usage originates in.
    pub fn scope(&self) -> (s: usize)
        ensures
            s == self.scope,
    {
        self.scope
    }

    /// The syntactic role of the usage.
    pub fn usage_kind(&self) -> (k: UsageKind)
        ensures
            k == self.usage_kind,
    {
        self.usage_kind
    }
}

} // verus!
