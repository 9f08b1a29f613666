//! The resolvable named slot a declaration produces.

use vstd::prelude::*;

verus! {

/// One declared name: the slot references resolve to.
#[derive(Debug)]
pub struct Variable {
    /// The declared name's text.
    pub name: String,
    /// The handle of the declaration that produced this variable.
    pub definition: usize,
    /// The handle of the scope the name is declared in.
    pub scope: usize,
    /// The references that resolved to this variable, in resolution order.
    pub references: Vec<usize>,
}

impl Variable {
    /// Appends a new variable record, with no references yet, to the store
    /// and returns its handle.
    pub fn new(
        variables: &mut Vec<Variable>,
        name: String,
        definition: usize,
        scope: usize,
    ) -> (id: usize)
        ensures
            id == old(variables)@.len(),
            final(variables)@.len() == old(variables)@.len() + 1,
            final(variables)@[id as int].name@ == name@,
            final(variables)@[id as int].definition == definition,
            final(variables)@[id as int].scope == scope,
            final(variables)@[id as int].references@ == Seq::<usize>::empty(),
            forall|j: int|
                0 <= j < old(variables)@.len() ==> final(variables)@[j] == old(variables)@[j],
    {
        let id = variables.len();
        variables.push(Variable { name, definition, scope, references: Vec::new() });
        id
    }

    /// The declared name's text.
    pub fn name(&self) -> (n: &String)
        ensures
            n == &self.name,
    {
        &self.name
    }

    /// The handle of the scope the name is declared in.
    pub fn scope(&self) -> (s: usize)
        ensures
            s == self.scope,
    {
        self.scope
    }

    /// The handle of the declaration that produced this variable.
    pub fn definition(&self) -> (d: usize)
        ensures
            d == self.definition,
    {
        self.definition
    }

    /// The references that resolved to this variable, in resolution order.
    pub fn references(&self) -> (rs: &Vec<usize>)
        ensures
            rs == &self.references,
    {
        &self.references
    }
}

} // verus!
