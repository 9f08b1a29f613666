//! Import flattening: each import clause registers Use definitions under
//! the names it brings in — an alias under the alias, a path under its last
//! segment, a braced list each entry in order, a wildcard nothing.

use scope_analysis::{DefinitionKind, FieldName, ScopeAnalyzer, SyntaxKind, SyntaxTree};

fn named(t: &mut SyntaxTree, parent: usize, kind: SyntaxKind, text: &str) -> usize {
    t.add_child(parent, kind, true, None, text)
}

fn field(t: &mut SyntaxTree, parent: usize, kind: SyntaxKind, f: FieldName, text: &str) -> usize {
    t.add_child(parent, kind, true, Some(f), text)
}

#[test]
fn test_simple_use() {
    // use foo;
    let mut t = SyntaxTree::new(SyntaxKind::SourceFile);
    let item = named(&mut t, 0, SyntaxKind::UseDeclaration, "");
    field(&mut t, item, SyntaxKind::Identifier, FieldName::Argument, "foo");

    let analyzer = ScopeAnalyzer::from_tree(&t);
    let root_scope = analyzer.root_scope();

    let variables = root_scope.variables();
    assert_eq!(variables.len(), 1);
    let variable = analyzer.borrow_variable(variables[0]);
    let definition = analyzer.borrow_definition(variable.definition());
    assert_eq!(definition.kind(), DefinitionKind::Use);
    assert_eq!(variable.name().as_str(), "foo");
    assert_eq!(t.kind(definition.name()), SyntaxKind::Identifier);
    assert_eq!(t.kind(definition.node()), SyntaxKind::UseDeclaration);
    assert!(variable.references().is_empty());
}

#[test]
fn test_scoped_use() {
    // use foo::bar;
    let mut t = SyntaxTree::new(SyntaxKind::SourceFile);
    let item = named(&mut t, 0, SyntaxKind::UseDeclaration, "");
    let arg = field(&mut t, item, SyntaxKind::ScopedIdentifier, FieldName::Argument, "");
    field(&mut t, arg, SyntaxKind::Identifier, FieldName::Path, "foo");
    field(&mut t, arg, SyntaxKind::Identifier, FieldName::Name, "bar");

    let analyzer = ScopeAnalyzer::from_tree(&t);
    let root_scope = analyzer.root_scope();

    let variables = root_scope.variables();
    assert_eq!(variables.len(), 1);
    let variable = analyzer.borrow_variable(variables[0]);
    let definition = analyzer.borrow_definition(variable.definition());
    assert_eq!(definition.kind(), DefinitionKind::Use);
    assert_eq!(variable.name().as_str(), "bar");
    assert_eq!(t.kind(definition.name()), SyntaxKind::Identifier);
    assert_eq!(t.kind(definition.node()), SyntaxKind::UseDeclaration);
    assert!(variable.references().is_empty());
}

#[test]
fn test_use_as() {
    // use foo::bar as baz;
    let mut t = SyntaxTree::new(SyntaxKind::SourceFile);
    let item = named(&mut t, 0, SyntaxKind::UseDeclaration, "");
    let arg = field(&mut t, item, SyntaxKind::UseAsClause, FieldName::Argument, "");
    let path = field(&mut t, arg, SyntaxKind::ScopedIdentifier, FieldName::Path, "");
    field(&mut t, path, SyntaxKind::Identifier, FieldName::Path, "foo");
    field(&mut t, path, SyntaxKind::Identifier, FieldName::Name, "bar");
    field(&mut t, arg, SyntaxKind::Identifier, FieldName::Alias, "baz");

    let analyzer = ScopeAnalyzer::from_tree(&t);
    let root_scope = analyzer.root_scope();

    let variables = root_scope.variables();
    assert_eq!(variables.len(), 1);
    let variable = analyzer.borrow_variable(variables[0]);
    let definition = analyzer.borrow_definition(variable.definition());
    assert_eq!(definition.kind(), DefinitionKind::Use);
    assert_eq!(variable.name().as_str(), "baz");
    assert_eq!(t.kind(definition.name()), SyntaxKind::Identifier);
    assert_eq!(t.kind(definition.node()), SyntaxKind::UseDeclaration);
    assert!(variable.references().is_empty());
}

#[test]
fn test_use_list() {
    // use foo::{bar as baz, quux};
    let mut t = SyntaxTree::new(SyntaxKind::SourceFile);
    let item = named(&mut t, 0, SyntaxKind::UseDeclaration, "");
    let arg = field(&mut t, item, SyntaxKind::ScopedUseList, FieldName::Argument, "");
    field(&mut t, arg, SyntaxKind::Identifier, FieldName::Path, "foo");
    let list = field(&mut t, arg, SyntaxKind::UseList, FieldName::List, "");
    let aliased = named(&mut t, list, SyntaxKind::UseAsClause, "");
    field(&mut t, aliased, SyntaxKind::Identifier, FieldName::Path, "bar");
    field(&mut t, aliased, SyntaxKind::Identifier, FieldName::Alias, "baz");
    named(&mut t, list, SyntaxKind::Identifier, "quux");

    let analyzer = ScopeAnalyzer::from_tree(&t);
    let root_scope = analyzer.root_scope();

    let variables = root_scope.variables();
    assert_eq!(variables.len(), 2);
    let variable = analyzer.borrow_variable(variables[0]);
    let definition = analyzer.borrow_definition(variable.definition());
    assert_eq!(definition.kind(), DefinitionKind::Use);
    assert_eq!(variable.name().as_str(), "baz");
    assert_eq!(t.kind(definition.name()), SyntaxKind::Identifier);
    assert_eq!(t.kind(definition.node()), SyntaxKind::UseDeclaration);
    assert!(variable.references().is_empty());
    assert_eq!(analyzer.borrow_variable(variables[1]).name().as_str(), "quux");
}

#[test]
fn test_self_in_use_list_binds_enclosing_module() {
    // use foo::{self};
    let mut t = SyntaxTree::new(SyntaxKind::SourceFile);
    let item = named(&mut t, 0, SyntaxKind::UseDeclaration, "");
    let arg = field(&mut t, item, SyntaxKind::ScopedUseList, FieldName::Argument, "");
    field(&mut t, arg, SyntaxKind::Identifier, FieldName::Path, "foo");
    let list = field(&mut t, arg, SyntaxKind::UseList, FieldName::List, "");
    named(&mut t, list, SyntaxKind::Self_, "self");

    let analyzer = ScopeAnalyzer::from_tree(&t);
    let root_scope = analyzer.root_scope();

    let variables = root_scope.variables();
    assert_eq!(variables.len(), 1);
    let variable = analyzer.borrow_variable(variables[0]);
    assert_eq!(variable.name().as_str(), "foo");
    assert_eq!(
        analyzer.borrow_definition(variable.definition()).kind(),
        DefinitionKind::Use
    );
}

#[test]
fn test_wildcard_use_introduces_no_definition() {
    // use foo::*;
    let mut t = SyntaxTree::new(SyntaxKind::SourceFile);
    let item = named(&mut t, 0, SyntaxKind::UseDeclaration, "");
    field(&mut t, item, SyntaxKind::UseWildcard, FieldName::Argument, "");

    let analyzer = ScopeAnalyzer::from_tree(&t);
    let root_scope = analyzer.root_scope();

    assert!(root_scope.variables().is_empty());
}

#[test]
fn test_discard_alias_is_skipped() {
    // use foo::bar as _;
    let mut t = SyntaxTree::new(SyntaxKind::SourceFile);
    let item = named(&mut t, 0, SyntaxKind::UseDeclaration, "");
    let arg = field(&mut t, item, SyntaxKind::UseAsClause, FieldName::Argument, "");
    let path = field(&mut t, arg, SyntaxKind::ScopedIdentifier, FieldName::Path, "");
    field(&mut t, path, SyntaxKind::Identifier, FieldName::Path, "foo");
    field(&mut t, path, SyntaxKind::Identifier, FieldName::Name, "bar");
    field(&mut t, arg, SyntaxKind::Identifier, FieldName::Alias, "_");

    let analyzer = ScopeAnalyzer::from_tree(&t);
    let root_scope = analyzer.root_scope();

    assert!(root_scope.variables().is_empty());
}
