//! Declaring each construct kind registers one variable, of the matching
//! definition kind, in the enclosing scope.

use scope_analysis::{
    DefinitionKind, FieldName, ScopeAnalyzer, ScopeKind, SyntaxKind, SyntaxTree,
};

fn named(t: &mut SyntaxTree, parent: usize, kind: SyntaxKind, text: &str) -> usize {
    t.add_child(parent, kind, true, None, text)
}

fn field(t: &mut SyntaxTree, parent: usize, kind: SyntaxKind, f: FieldName, text: &str) -> usize {
    t.add_child(parent, kind, true, Some(f), text)
}

#[test]
fn test_enum_gets_added_to_scope() {
    // enum Foo {
    //     Bar,
    // }
    let mut t = SyntaxTree::new(SyntaxKind::SourceFile);
    let item = named(&mut t, 0, SyntaxKind::EnumItem, "");
    field(&mut t, item, SyntaxKind::TypeIdentifier, FieldName::Name, "Foo");
    let body = field(&mut t, item, SyntaxKind::EnumVariantList, FieldName::Body, "");
    let variant = named(&mut t, body, SyntaxKind::EnumVariant, "");
    field(&mut t, variant, SyntaxKind::Identifier, FieldName::Name, "Bar");

    let analyzer = ScopeAnalyzer::from_tree(&t);
    let root_scope = analyzer.root_scope();

    let variables = root_scope.variables();
    assert_eq!(variables.len(), 1);
    let variable = analyzer.borrow_variable(variables[0]);
    let definition = analyzer.borrow_definition(variable.definition());
    assert_eq!(definition.kind(), DefinitionKind::Enum);
    assert_eq!(variable.name().as_str(), "Foo");
    assert_eq!(t.kind(definition.name()), SyntaxKind::TypeIdentifier);
    assert_eq!(t.kind(definition.node()), SyntaxKind::EnumItem);
    assert!(variable.references().is_empty());
}

#[test]
fn test_extern_crate_declaration_gets_added_to_scope() {
    // extern crate foo;
    let mut t = SyntaxTree::new(SyntaxKind::SourceFile);
    let item = named(&mut t, 0, SyntaxKind::ExternCrateDeclaration, "");
    field(&mut t, item, SyntaxKind::Identifier, FieldName::Name, "foo");

    let analyzer = ScopeAnalyzer::from_tree(&t);
    let root_scope = analyzer.root_scope();

    let variables = root_scope.variables();
    assert_eq!(variables.len(), 1);
    let variable = analyzer.borrow_variable(variables[0]);
    let definition = analyzer.borrow_definition(variable.definition());
    assert_eq!(definition.kind(), DefinitionKind::ExternCrateDeclaration);
    assert_eq!(variable.name().as_str(), "foo");
    assert_eq!(t.kind(definition.name()), SyntaxKind::Identifier);
    assert_eq!(t.kind(definition.node()), SyntaxKind::ExternCrateDeclaration);
    assert!(variable.references().is_empty());
}

#[test]
fn test_gets_added_as_alias() {
    // extern crate foo as bar;
    let mut t = SyntaxTree::new(SyntaxKind::SourceFile);
    let item = named(&mut t, 0, SyntaxKind::ExternCrateDeclaration, "");
    field(&mut t, item, SyntaxKind::Identifier, FieldName::Name, "foo");
    field(&mut t, item, SyntaxKind::Identifier, FieldName::Alias, "bar");

    let analyzer = ScopeAnalyzer::from_tree(&t);
    let root_scope = analyzer.root_scope();

    let variables = root_scope.variables();
    assert_eq!(variables.len(), 1);
    let variable = analyzer.borrow_variable(variables[0]);
    let definition = analyzer.borrow_definition(variable.definition());
    assert_eq!(definition.kind(), DefinitionKind::ExternCrateDeclaration);
    assert_eq!(variable.name().as_str(), "bar");
    assert_eq!(t.kind(definition.name()), SyntaxKind::Identifier);
    assert_eq!(t.text(definition.name()).as_str(), "bar");
    assert_eq!(t.kind(definition.node()), SyntaxKind::ExternCrateDeclaration);
    assert!(variable.references().is_empty());
}

#[test]
fn test_macro_gets_added_to_scope() {
    // macro_rules! foo {
    //     ($whee:expr) => {}
    // }
    let mut t = SyntaxTree::new(SyntaxKind::SourceFile);
    let item = named(&mut t, 0, SyntaxKind::MacroDefinition, "");
    field(&mut t, item, SyntaxKind::Identifier, FieldName::Name, "foo");
    let rule = named(&mut t, item, SyntaxKind::ArrowSeparatedPair, "");
    let key = field(&mut t, rule, SyntaxKind::TokenTreePattern, FieldName::Key, "");
    named(&mut t, key, SyntaxKind::Metavariable, "$whee");
    field(&mut t, rule, SyntaxKind::TokenTree, FieldName::Value, "");

    let analyzer = ScopeAnalyzer::from_tree(&t);
    let root_scope = analyzer.root_scope();

    let variables = root_scope.variables();
    assert_eq!(variables.len(), 1);
    let variable = analyzer.borrow_variable(variables[0]);
    let definition = analyzer.borrow_definition(variable.definition());
    assert_eq!(definition.kind(), DefinitionKind::Macro);
    assert_eq!(variable.name().as_str(), "foo");
    assert_eq!(t.kind(definition.name()), SyntaxKind::Identifier);
    assert_eq!(t.kind(definition.node()), SyntaxKind::MacroDefinition);
    assert!(variable.references().is_empty());
}

#[test]
fn test_module_definition_gets_added_to_scope() {
    // mod foo {}
    let mut t = SyntaxTree::new(SyntaxKind::SourceFile);
    let item = named(&mut t, 0, SyntaxKind::ModItem, "");
    field(&mut t, item, SyntaxKind::Identifier, FieldName::Name, "foo");
    field(&mut t, item, SyntaxKind::DeclarationList, FieldName::Body, "");

    let analyzer = ScopeAnalyzer::from_tree(&t);
    let root_scope = analyzer.root_scope();

    let variables = root_scope.variables();
    assert_eq!(variables.len(), 1);
    let variable = analyzer.borrow_variable(variables[0]);
    let definition = analyzer.borrow_definition(variable.definition());
    assert_eq!(definition.kind(), DefinitionKind::Module);
    assert_eq!(variable.name().as_str(), "foo");
    assert_eq!(t.kind(definition.name()), SyntaxKind::Identifier);
    assert_eq!(t.kind(definition.node()), SyntaxKind::ModItem);
    assert!(variable.references().is_empty());
}

#[test]
fn test_module_definition_creates_new_scope() {
    // use bar::Baz;
    //
    // mod foo {
    //     use quux::Boom;
    //
    //     type Whee = Boom;
    // }
    let mut t = SyntaxTree::new(SyntaxKind::SourceFile);
    let use1 = named(&mut t, 0, SyntaxKind::UseDeclaration, "");
    let arg1 = field(&mut t, use1, SyntaxKind::ScopedIdentifier, FieldName::Argument, "");
    field(&mut t, arg1, SyntaxKind::Identifier, FieldName::Path, "bar");
    field(&mut t, arg1, SyntaxKind::Identifier, FieldName::Name, "Baz");
    let item = named(&mut t, 0, SyntaxKind::ModItem, "");
    field(&mut t, item, SyntaxKind::Identifier, FieldName::Name, "foo");
    let body = field(&mut t, item, SyntaxKind::DeclarationList, FieldName::Body, "");
    let use2 = named(&mut t, body, SyntaxKind::UseDeclaration, "");
    let arg2 = field(&mut t, use2, SyntaxKind::ScopedIdentifier, FieldName::Argument, "");
    field(&mut t, arg2, SyntaxKind::Identifier, FieldName::Path, "quux");
    field(&mut t, arg2, SyntaxKind::Identifier, FieldName::Name, "Boom");
    let alias = named(&mut t, body, SyntaxKind::TypeItem, "");
    field(&mut t, alias, SyntaxKind::TypeIdentifier, FieldName::Name, "Whee");
    field(&mut t, alias, SyntaxKind::TypeIdentifier, FieldName::Ty, "Boom");

    let analyzer = ScopeAnalyzer::from_tree(&t);

    let root_scope = analyzer.borrow_scope(analyzer.scopes[0]);
    let variables = root_scope.variables();
    assert_eq!(variables.len(), 2);
    assert_eq!(analyzer.borrow_variable(variables[0]).name().as_str(), "Baz");
    assert_eq!(analyzer.borrow_variable(variables[1]).name().as_str(), "foo");

    let module_scope = analyzer.borrow_scope(analyzer.scopes[1]);
    assert_eq!(module_scope.kind(), ScopeKind::Module);

    let variables = module_scope.variables();
    assert_eq!(variables.len(), 2);
    assert_eq!(analyzer.borrow_variable(variables[0]).name().as_str(), "Boom");
    assert_eq!(analyzer.borrow_variable(variables[1]).name().as_str(), "Whee");

    let variable = analyzer.borrow_variable(variables[0]);
    assert_eq!(variable.references().len(), 1);
}

#[test]
fn test_static_gets_added_to_scope() {
    // static FOO: usize = 0;
    let mut t = SyntaxTree::new(SyntaxKind::SourceFile);
    let item = named(&mut t, 0, SyntaxKind::StaticItem, "");
    field(&mut t, item, SyntaxKind::Identifier, FieldName::Name, "FOO");
    field(&mut t, item, SyntaxKind::PrimitiveType, FieldName::Ty, "usize");
    field(&mut t, item, SyntaxKind::IntegerLiteral, FieldName::Value, "0");

    let analyzer = ScopeAnalyzer::from_tree(&t);
    let root_scope = analyzer.root_scope();

    let variables = root_scope.variables();
    assert_eq!(variables.len(), 1);
    let variable = analyzer.borrow_variable(variables[0]);
    let definition = analyzer.borrow_definition(variable.definition());
    assert_eq!(definition.kind(), DefinitionKind::Static);
    assert_eq!(variable.name().as_str(), "FOO");
    assert_eq!(t.kind(definition.name()), SyntaxKind::Identifier);
    assert_eq!(t.kind(definition.node()), SyntaxKind::StaticItem);
    assert!(variable.references().is_empty());
}

#[test]
fn test_struct_definition_gets_added_to_scope() {
    // struct Foo {}
    let mut t = SyntaxTree::new(SyntaxKind::SourceFile);
    let item = named(&mut t, 0, SyntaxKind::StructItem, "");
    field(&mut t, item, SyntaxKind::TypeIdentifier, FieldName::Name, "Foo");
    field(&mut t, item, SyntaxKind::FieldDeclarationList, FieldName::Body, "");

    let analyzer = ScopeAnalyzer::from_tree(&t);
    let root_scope = analyzer.root_scope();

    assert_eq!(root_scope.kind(), ScopeKind::Root);
    let variables = root_scope.variables();
    assert_eq!(variables.len(), 1);
    let variable = analyzer.borrow_variable(variables[0]);
    let definition = analyzer.borrow_definition(variable.definition());
    assert_eq!(definition.kind(), DefinitionKind::Struct);
    assert_eq!(variable.name().as_str(), "Foo");
    assert_eq!(t.kind(definition.name()), SyntaxKind::TypeIdentifier);
    assert_eq!(t.kind(definition.node()), SyntaxKind::StructItem);
    assert!(variable.references().is_empty());
}

#[test]
fn test_trait_gets_added_to_scope() {
    // trait Foo {
    //     fn foo(&self);
    // }
    let mut t = SyntaxTree::new(SyntaxKind::SourceFile);
    let item = named(&mut t, 0, SyntaxKind::TraitItem, "");
    field(&mut t, item, SyntaxKind::TypeIdentifier, FieldName::Name, "Foo");
    let body = field(&mut t, item, SyntaxKind::DeclarationList, FieldName::Body, "");
    let signature = named(&mut t, body, SyntaxKind::Other, "");
    field(&mut t, signature, SyntaxKind::Identifier, FieldName::Name, "foo");
    named(&mut t, signature, SyntaxKind::Parameters, "");

    let analyzer = ScopeAnalyzer::from_tree(&t);
    let root_scope = analyzer.root_scope();

    let variables = root_scope.variables();
    assert_eq!(variables.len(), 1);
    let variable = analyzer.borrow_variable(variables[0]);
    let definition = analyzer.borrow_definition(variable.definition());
    assert_eq!(definition.kind(), DefinitionKind::Trait);
    assert_eq!(variable.name().as_str(), "Foo");
    assert_eq!(t.kind(definition.name()), SyntaxKind::TypeIdentifier);
    assert_eq!(t.kind(definition.node()), SyntaxKind::TraitItem);
    assert!(variable.references().is_empty());
}

#[test]
fn test_union_gets_added_to_scope() {
    // union Foo {
    //     a: u32,
    //     b: f32,
    // }
    let mut t = SyntaxTree::new(SyntaxKind::SourceFile);
    let item = named(&mut t, 0, SyntaxKind::UnionItem, "");
    field(&mut t, item, SyntaxKind::TypeIdentifier, FieldName::Name, "Foo");
    let body = field(&mut t, item, SyntaxKind::FieldDeclarationList, FieldName::Body, "");
    let a = named(&mut t, body, SyntaxKind::FieldDeclaration, "");
    field(&mut t, a, SyntaxKind::FieldIdentifier, FieldName::Name, "a");
    field(&mut t, a, SyntaxKind::PrimitiveType, FieldName::Ty, "u32");
    let b = named(&mut t, body, SyntaxKind::FieldDeclaration, "");
    field(&mut t, b, SyntaxKind::FieldIdentifier, FieldName::Name, "b");
    field(&mut t, b, SyntaxKind::PrimitiveType, FieldName::Ty, "f32");

    let analyzer = ScopeAnalyzer::from_tree(&t);
    let root_scope = analyzer.root_scope();

    let variables = root_scope.variables();
    assert_eq!(variables.len(), 1);
    let variable = analyzer.borrow_variable(variables[0]);
    let definition = analyzer.borrow_definition(variable.definition());
    assert_eq!(definition.kind(), DefinitionKind::Union);
    assert_eq!(variable.name().as_str(), "Foo");
    assert_eq!(t.kind(definition.name()), SyntaxKind::TypeIdentifier);
    assert_eq!(t.kind(definition.node()), SyntaxKind::UnionItem);
    assert!(variable.references().is_empty());
}
