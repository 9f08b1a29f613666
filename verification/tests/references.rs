//! Resolution behaviour: same-scope and bubbling resolution, the locality
//! of let bindings, enum-variant name positions, path-qualified usages, and
//! attribute and macro name positions.

use scope_analysis::{FieldName, ScopeAnalyzer, ScopeKind, SyntaxKind, SyntaxTree, UsageKind};

fn named(t: &mut SyntaxTree, parent: usize, kind: SyntaxKind, text: &str) -> usize {
    t.add_child(parent, kind, true, None, text)
}

fn field(t: &mut SyntaxTree, parent: usize, kind: SyntaxKind, f: FieldName, text: &str) -> usize {
    t.add_child(parent, kind, true, Some(f), text)
}

#[test]
fn test_reference_in_type_alias_gets_resolved() {
    // struct Foo {}
    //
    // type Bar = Foo;
    let mut t = SyntaxTree::new(SyntaxKind::SourceFile);
    let item = named(&mut t, 0, SyntaxKind::StructItem, "");
    field(&mut t, item, SyntaxKind::TypeIdentifier, FieldName::Name, "Foo");
    field(&mut t, item, SyntaxKind::FieldDeclarationList, FieldName::Body, "");
    let alias = named(&mut t, 0, SyntaxKind::TypeItem, "");
    field(&mut t, alias, SyntaxKind::TypeIdentifier, FieldName::Name, "Bar");
    field(&mut t, alias, SyntaxKind::TypeIdentifier, FieldName::Ty, "Foo");

    let analyzer = ScopeAnalyzer::from_tree(&t);
    let root_scope = analyzer.root_scope();

    let variables = root_scope.variables();
    assert_eq!(variables.len(), 2);
    let references = root_scope.references();
    assert_eq!(references.len(), 1);
    let variable_foo = variables[0];
    let references_foo = analyzer.borrow_variable(variable_foo).references();
    assert_eq!(references_foo.len(), 1);
    let reference = analyzer.borrow_reference(references[0]);
    assert_eq!(reference.resolved(), Some(variable_foo));
    assert_eq!(reference.usage_kind(), UsageKind::IdentifierReference);
}

#[test]
fn test_reference_in_function_scope_gets_resolved_locally() {
    // fn whee() -> usize {
    //     let foo = 3;
    //
    //     foo + 2
    // }
    let mut t = SyntaxTree::new(SyntaxKind::SourceFile);
    let item = named(&mut t, 0, SyntaxKind::FunctionItem, "");
    field(&mut t, item, SyntaxKind::Identifier, FieldName::Name, "whee");
    named(&mut t, item, SyntaxKind::Parameters, "");
    named(&mut t, item, SyntaxKind::PrimitiveType, "usize");
    let body = field(&mut t, item, SyntaxKind::Block, FieldName::Body, "");
    let binding = named(&mut t, body, SyntaxKind::LetDeclaration, "");
    field(&mut t, binding, SyntaxKind::Identifier, FieldName::Pattern, "foo");
    field(&mut t, binding, SyntaxKind::IntegerLiteral, FieldName::Value, "3");
    let sum = named(&mut t, body, SyntaxKind::BinaryExpression, "");
    named(&mut t, sum, SyntaxKind::Identifier, "foo");
    named(&mut t, sum, SyntaxKind::IntegerLiteral, "2");

    let analyzer = ScopeAnalyzer::from_tree(&t);

    let function_scope = analyzer.borrow_scope(analyzer.scopes[1]);
    assert_eq!(function_scope.kind(), ScopeKind::Function);

    let variables = function_scope.variables();
    assert_eq!(variables.len(), 1);
    let variable_foo = variables[0];
    let references = function_scope.references();
    assert_eq!(references.len(), 1);
    assert_eq!(
        analyzer.borrow_reference(references[0]).usage_kind(),
        UsageKind::IdentifierReference
    );
    let references_foo = analyzer.borrow_variable(variable_foo).references();
    assert_eq!(references_foo.len(), 1);
}

#[test]
fn test_reference_in_nested_function_scope_doesnt_get_resolved_to_outer_function_scope() {
    // fn whee() -> usize {
    //     let foo = 3;
    //
    //     fn whoo() -> usize {
    //         foo + 2
    //     }
    //
    //     whoo()
    // }
    let mut t = SyntaxTree::new(SyntaxKind::SourceFile);
    let outer = named(&mut t, 0, SyntaxKind::FunctionItem, "");
    field(&mut t, outer, SyntaxKind::Identifier, FieldName::Name, "whee");
    named(&mut t, outer, SyntaxKind::Parameters, "");
    let outer_body = field(&mut t, outer, SyntaxKind::Block, FieldName::Body, "");
    let binding = named(&mut t, outer_body, SyntaxKind::LetDeclaration, "");
    field(&mut t, binding, SyntaxKind::Identifier, FieldName::Pattern, "foo");
    field(&mut t, binding, SyntaxKind::IntegerLiteral, FieldName::Value, "3");
    let inner = named(&mut t, outer_body, SyntaxKind::FunctionItem, "");
    field(&mut t, inner, SyntaxKind::Identifier, FieldName::Name, "whoo");
    named(&mut t, inner, SyntaxKind::Parameters, "");
    let inner_body = field(&mut t, inner, SyntaxKind::Block, FieldName::Body, "");
    let sum = named(&mut t, inner_body, SyntaxKind::BinaryExpression, "");
    named(&mut t, sum, SyntaxKind::Identifier, "foo");
    named(&mut t, sum, SyntaxKind::IntegerLiteral, "2");
    let call = named(&mut t, outer_body, SyntaxKind::CallExpression, "");
    named(&mut t, call, SyntaxKind::Identifier, "whoo");
    named(&mut t, call, SyntaxKind::Arguments, "");

    let analyzer = ScopeAnalyzer::from_tree(&t);

    let outer_scope = analyzer.borrow_scope(analyzer.scopes[1]);
    let inner_scope = analyzer.borrow_scope(analyzer.scopes[2]);

    let outer_through = outer_scope.through();
    let inner_through = inner_scope.through();
    assert_eq!(outer_through.len(), 1);
    assert_eq!(inner_through.len(), 1);
    let outer_node = analyzer.borrow_reference(outer_through[0]).node();
    let inner_node = analyzer.borrow_reference(inner_through[0]).node();
    assert_eq!(t.text(outer_node).as_str(), "foo");
    assert_eq!(t.text(inner_node).as_str(), "foo");
}

#[test]
fn test_reference_in_function_scope_gets_resolved_to_static() {
    // static FOO: usize = 0;
    //
    // fn whee() -> usize {
    //     FOO + 2
    // }
    let mut t = SyntaxTree::new(SyntaxKind::SourceFile);
    let stat = named(&mut t, 0, SyntaxKind::StaticItem, "");
    field(&mut t, stat, SyntaxKind::Identifier, FieldName::Name, "FOO");
    field(&mut t, stat, SyntaxKind::PrimitiveType, FieldName::Ty, "usize");
    field(&mut t, stat, SyntaxKind::IntegerLiteral, FieldName::Value, "0");
    let item = named(&mut t, 0, SyntaxKind::FunctionItem, "");
    field(&mut t, item, SyntaxKind::Identifier, FieldName::Name, "whee");
    named(&mut t, item, SyntaxKind::Parameters, "");
    let body = field(&mut t, item, SyntaxKind::Block, FieldName::Body, "");
    let sum = named(&mut t, body, SyntaxKind::BinaryExpression, "");
    named(&mut t, sum, SyntaxKind::Identifier, "FOO");
    named(&mut t, sum, SyntaxKind::IntegerLiteral, "2");

    let analyzer = ScopeAnalyzer::from_tree(&t);

    let root_scope = analyzer.borrow_scope(analyzer.scopes[0]);
    let function_scope = analyzer.borrow_scope(analyzer.scopes[1]);

    assert!(root_scope.through().is_empty());
    assert_eq!(function_scope.through().len(), 1);
}

#[test]
fn test_reference_in_struct_field_type_gets_resolved() {
    // struct Foo {}
    //
    // struct Bar {
    //     foo: Foo,
    // }
    let mut t = SyntaxTree::new(SyntaxKind::SourceFile);
    let foo = named(&mut t, 0, SyntaxKind::StructItem, "");
    field(&mut t, foo, SyntaxKind::TypeIdentifier, FieldName::Name, "Foo");
    field(&mut t, foo, SyntaxKind::FieldDeclarationList, FieldName::Body, "");
    let bar = named(&mut t, 0, SyntaxKind::StructItem, "");
    field(&mut t, bar, SyntaxKind::TypeIdentifier, FieldName::Name, "Bar");
    let body = field(&mut t, bar, SyntaxKind::FieldDeclarationList, FieldName::Body, "");
    let decl = named(&mut t, body, SyntaxKind::FieldDeclaration, "");
    field(&mut t, decl, SyntaxKind::FieldIdentifier, FieldName::Name, "foo");
    field(&mut t, decl, SyntaxKind::TypeIdentifier, FieldName::Ty, "Foo");

    let analyzer = ScopeAnalyzer::from_tree(&t);
    let root_scope = analyzer.root_scope();

    let variables = root_scope.variables();
    let variable_foo = variables[0];
    assert_eq!(analyzer.borrow_variable(variable_foo).name().as_str(), "Foo");

    let references = root_scope.references();
    assert_eq!(references.len(), 1);

    let references_foo = analyzer.borrow_variable(variable_foo).references();
    assert_eq!(references_foo.len(), 1);

    let reference = analyzer.borrow_reference(references[0]);
    assert_eq!(reference.resolved(), Some(variable_foo));
    assert_eq!(reference.usage_kind(), UsageKind::IdentifierReference);
}

#[test]
fn test_enum_variant_doesnt_add_reference() {
    // enum Foo {
    //     Bar,
    // }
    let mut t = SyntaxTree::new(SyntaxKind::SourceFile);
    let item = named(&mut t, 0, SyntaxKind::EnumItem, "");
    field(&mut t, item, SyntaxKind::TypeIdentifier, FieldName::Name, "Foo");
    let body = field(&mut t, item, SyntaxKind::EnumVariantList, FieldName::Body, "");
    let variant = named(&mut t, body, SyntaxKind::EnumVariant, "");
    field(&mut t, variant, SyntaxKind::Identifier, FieldName::Name, "Bar");

    let analyzer = ScopeAnalyzer::from_tree(&t);
    let root_scope = analyzer.root_scope();

    assert_eq!(root_scope.variables().len(), 1);
    assert!(root_scope.references().is_empty());
}

#[test]
fn test_scoped_path_reference_gets_resolved() {
    // enum Foo {
    //     Bar,
    // }
    //
    // let foo = Foo::Bar;
    let mut t = SyntaxTree::new(SyntaxKind::SourceFile);
    let item = named(&mut t, 0, SyntaxKind::EnumItem, "");
    field(&mut t, item, SyntaxKind::TypeIdentifier, FieldName::Name, "Foo");
    let body = field(&mut t, item, SyntaxKind::EnumVariantList, FieldName::Body, "");
    let variant = named(&mut t, body, SyntaxKind::EnumVariant, "");
    field(&mut t, variant, SyntaxKind::Identifier, FieldName::Name, "Bar");
    let binding = named(&mut t, 0, SyntaxKind::LetDeclaration, "");
    field(&mut t, binding, SyntaxKind::Identifier, FieldName::Pattern, "foo");
    let value = field(&mut t, binding, SyntaxKind::ScopedIdentifier, FieldName::Value, "");
    field(&mut t, value, SyntaxKind::Identifier, FieldName::Path, "Foo");
    field(&mut t, value, SyntaxKind::Identifier, FieldName::Name, "Bar");

    let analyzer = ScopeAnalyzer::from_tree(&t);
    let root_scope = analyzer.root_scope();

    let variables = root_scope.variables();
    let variable_foo = variables[0];
    assert_eq!(analyzer.borrow_variable(variable_foo).name().as_str(), "Foo");

    let references = root_scope.references();
    let references_foo = analyzer.borrow_variable(variable_foo).references();

    assert_eq!(references_foo.len(), 1);
    assert_eq!(analyzer.borrow_reference(references[0]).resolved(), Some(variable_foo));
}

#[test]
fn test_attribute_reference_gets_resolved() {
    // use foo::bar;
    //
    // #[bar]
    // struct Foo;
    let mut t = SyntaxTree::new(SyntaxKind::SourceFile);
    let item = named(&mut t, 0, SyntaxKind::UseDeclaration, "");
    let arg = field(&mut t, item, SyntaxKind::ScopedIdentifier, FieldName::Argument, "");
    field(&mut t, arg, SyntaxKind::Identifier, FieldName::Path, "foo");
    field(&mut t, arg, SyntaxKind::Identifier, FieldName::Name, "bar");
    let attr_item = named(&mut t, 0, SyntaxKind::AttributeItem, "");
    let attr = named(&mut t, attr_item, SyntaxKind::Attribute, "");
    named(&mut t, attr, SyntaxKind::Identifier, "bar");
    let strukt = named(&mut t, 0, SyntaxKind::StructItem, "");
    field(&mut t, strukt, SyntaxKind::TypeIdentifier, FieldName::Name, "Foo");

    let analyzer = ScopeAnalyzer::from_tree(&t);
    let root_scope = analyzer.root_scope();

    let variables = root_scope.variables();
    let variable_bar = variables[0];
    assert_eq!(analyzer.borrow_variable(variable_bar).name().as_str(), "bar");

    let references_bar = analyzer.borrow_variable(variable_bar).references();
    assert_eq!(references_bar.len(), 1);
    let reference = analyzer.borrow_reference(references_bar[0]);
    assert_eq!(reference.resolved(), Some(variable_bar));
    assert_eq!(reference.usage_kind(), UsageKind::AttributeName);
}

#[test]
fn test_macro_reference_gets_resolved() {
    // use foo::bar;
    //
    // fn whee() {
    //     bar!();
    // }
    let mut t = SyntaxTree::new(SyntaxKind::SourceFile);
    let item = named(&mut t, 0, SyntaxKind::UseDeclaration, "");
    let arg = field(&mut t, item, SyntaxKind::ScopedIdentifier, FieldName::Argument, "");
    field(&mut t, arg, SyntaxKind::Identifier, FieldName::Path, "foo");
    field(&mut t, arg, SyntaxKind::Identifier, FieldName::Name, "bar");
    let function = named(&mut t, 0, SyntaxKind::FunctionItem, "");
    field(&mut t, function, SyntaxKind::Identifier, FieldName::Name, "whee");
    named(&mut t, function, SyntaxKind::Parameters, "");
    let body = field(&mut t, function, SyntaxKind::Block, FieldName::Body, "");
    let statement = named(&mut t, body, SyntaxKind::ExpressionStatement, "");
    let invocation = named(&mut t, statement, SyntaxKind::MacroInvocation, "");
    field(&mut t, invocation, SyntaxKind::Identifier, FieldName::MacroName, "bar");
    named(&mut t, invocation, SyntaxKind::TokenTree, "");

    let analyzer = ScopeAnalyzer::from_tree(&t);
    let root_scope = analyzer.root_scope();

    let variables = root_scope.variables();
    let variable_bar = variables[0];
    assert_eq!(analyzer.borrow_variable(variable_bar).name().as_str(), "bar");

    let references_bar = analyzer.borrow_variable(variable_bar).references();
    assert_eq!(references_bar.len(), 1);
    assert_eq!(
        analyzer.borrow_reference(references_bar[0]).usage_kind(),
        UsageKind::Macro
    );
}
