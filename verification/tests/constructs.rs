//! Remaining declaration construct kinds, scoped type names, and the
//! restricted descent into type arguments.

use scope_analysis::{
    check_subtree, DefinitionKind, FieldName, ScopeAnalyzer, ScopeKind, SyntaxKind, SyntaxTree,
    Visibility,
};

fn named(t: &mut SyntaxTree, parent: usize, kind: SyntaxKind, text: &str) -> usize {
    t.add_child(parent, kind, true, None, text)
}

fn field(t: &mut SyntaxTree, parent: usize, kind: SyntaxKind, f: FieldName, text: &str) -> usize {
    t.add_child(parent, kind, true, Some(f), text)
}

fn token(t: &mut SyntaxTree, parent: usize, kind: SyntaxKind, text: &str) -> usize {
    t.add_child(parent, kind, false, None, text)
}

#[test]
fn test_function_gets_added_to_scope_and_opens_one() {
    // fn whee() {}
    let mut t = SyntaxTree::new(SyntaxKind::SourceFile);
    let item = named(&mut t, 0, SyntaxKind::FunctionItem, "");
    field(&mut t, item, SyntaxKind::Identifier, FieldName::Name, "whee");
    named(&mut t, item, SyntaxKind::Parameters, "");
    field(&mut t, item, SyntaxKind::Block, FieldName::Body, "");

    let analyzer = ScopeAnalyzer::from_tree(&t);

    assert_eq!(analyzer.scopes.len(), 2);
    let root_scope = analyzer.root_scope();
    let variables = root_scope.variables();
    assert_eq!(variables.len(), 1);
    let variable = analyzer.borrow_variable(variables[0]);
    assert_eq!(variable.name().as_str(), "whee");
    assert_eq!(
        analyzer.borrow_definition(variable.definition()).kind(),
        DefinitionKind::Function
    );
    assert_eq!(
        analyzer.borrow_scope(analyzer.scopes[1]).kind(),
        ScopeKind::Function
    );
    assert_eq!(
        analyzer.borrow_scope(analyzer.scopes[1]).maybe_upper(),
        Some(analyzer.scopes[0])
    );
}

#[test]
fn test_const_gets_added_to_scope() {
    // const FOO: usize = 0;
    let mut t = SyntaxTree::new(SyntaxKind::SourceFile);
    let item = named(&mut t, 0, SyntaxKind::ConstItem, "");
    field(&mut t, item, SyntaxKind::Identifier, FieldName::Name, "FOO");
    field(&mut t, item, SyntaxKind::PrimitiveType, FieldName::Ty, "usize");
    field(&mut t, item, SyntaxKind::IntegerLiteral, FieldName::Value, "0");

    let analyzer = ScopeAnalyzer::from_tree(&t);
    let root_scope = analyzer.root_scope();

    let variables = root_scope.variables();
    assert_eq!(variables.len(), 1);
    let variable = analyzer.borrow_variable(variables[0]);
    assert_eq!(variable.name().as_str(), "FOO");
    assert_eq!(
        analyzer.borrow_definition(variable.definition()).kind(),
        DefinitionKind::Const
    );
    assert!(variable.references().is_empty());
}

#[test]
fn test_type_alias_gets_added_to_scope() {
    // type Foo = usize;
    let mut t = SyntaxTree::new(SyntaxKind::SourceFile);
    let item = named(&mut t, 0, SyntaxKind::TypeItem, "");
    field(&mut t, item, SyntaxKind::TypeIdentifier, FieldName::Name, "Foo");
    field(&mut t, item, SyntaxKind::PrimitiveType, FieldName::Ty, "usize");

    let analyzer = ScopeAnalyzer::from_tree(&t);
    let root_scope = analyzer.root_scope();

    let variables = root_scope.variables();
    assert_eq!(variables.len(), 1);
    let variable = analyzer.borrow_variable(variables[0]);
    assert_eq!(variable.name().as_str(), "Foo");
    assert_eq!(
        analyzer.borrow_definition(variable.definition()).kind(),
        DefinitionKind::TypeAlias
    );
}

#[test]
fn test_scoped_type_reference_resolves_leading_segment() {
    // use foo;
    //
    // struct S {
    //     x: foo::Bar,
    // }
    let mut t = SyntaxTree::new(SyntaxKind::SourceFile);
    let import = named(&mut t, 0, SyntaxKind::UseDeclaration, "");
    field(&mut t, import, SyntaxKind::Identifier, FieldName::Argument, "foo");
    let item = named(&mut t, 0, SyntaxKind::StructItem, "");
    field(&mut t, item, SyntaxKind::TypeIdentifier, FieldName::Name, "S");
    let body = field(&mut t, item, SyntaxKind::FieldDeclarationList, FieldName::Body, "");
    let decl = named(&mut t, body, SyntaxKind::FieldDeclaration, "");
    field(&mut t, decl, SyntaxKind::FieldIdentifier, FieldName::Name, "x");
    let ty = field(&mut t, decl, SyntaxKind::ScopedTypeIdentifier, FieldName::Ty, "");
    let leading = field(&mut t, ty, SyntaxKind::Identifier, FieldName::Path, "foo");
    field(&mut t, ty, SyntaxKind::TypeIdentifier, FieldName::Name, "Bar");

    let analyzer = ScopeAnalyzer::from_tree(&t);
    let root_scope = analyzer.root_scope();

    let references = root_scope.references();
    assert_eq!(references.len(), 1);
    let reference = analyzer.borrow_reference(references[0]);
    assert_eq!(reference.node(), leading);
    let variable_foo = root_scope.variables()[0];
    assert_eq!(reference.resolved(), Some(variable_foo));
}

#[test]
fn test_type_arguments_of_scoped_path_are_still_visited() {
    // const FOO: usize = 3;
    //
    // struct Wrapper {}
    //
    // let w = Wrapper::<FOO>::new();
    let mut t = SyntaxTree::new(SyntaxKind::SourceFile);
    let konst = named(&mut t, 0, SyntaxKind::ConstItem, "");
    field(&mut t, konst, SyntaxKind::Identifier, FieldName::Name, "FOO");
    field(&mut t, konst, SyntaxKind::PrimitiveType, FieldName::Ty, "usize");
    field(&mut t, konst, SyntaxKind::IntegerLiteral, FieldName::Value, "3");
    let wrapper = named(&mut t, 0, SyntaxKind::StructItem, "");
    field(&mut t, wrapper, SyntaxKind::TypeIdentifier, FieldName::Name, "Wrapper");
    field(&mut t, wrapper, SyntaxKind::FieldDeclarationList, FieldName::Body, "");
    let binding = named(&mut t, 0, SyntaxKind::LetDeclaration, "");
    field(&mut t, binding, SyntaxKind::Identifier, FieldName::Pattern, "w");
    let call = field(&mut t, binding, SyntaxKind::CallExpression, FieldName::Value, "");
    let path = named(&mut t, call, SyntaxKind::ScopedIdentifier, "");
    let generic = field(&mut t, path, SyntaxKind::GenericType, FieldName::Path, "");
    let leading = field(&mut t, generic, SyntaxKind::TypeIdentifier, FieldName::Ty, "Wrapper");
    let arguments = named(&mut t, generic, SyntaxKind::TypeArguments, "");
    named(&mut t, arguments, SyntaxKind::Identifier, "FOO");
    field(&mut t, path, SyntaxKind::Identifier, FieldName::Name, "new");
    named(&mut t, call, SyntaxKind::Arguments, "");

    let analyzer = ScopeAnalyzer::from_tree(&t);
    let root_scope = analyzer.root_scope();

    // The leading segment and the name inside the type arguments are
    // referenced; the trailing segment is not.
    let references = root_scope.references();
    assert_eq!(references.len(), 2);
    let first = analyzer.borrow_reference(references[0]);
    let second = analyzer.borrow_reference(references[1]);
    assert_eq!(first.node(), leading);
    let variables = root_scope.variables();
    assert_eq!(first.resolved(), Some(variables[1]));
    assert_eq!(second.resolved(), Some(variables[0]));
}

#[test]
fn test_path_restricted_visibility_is_recorded() {
    // pub(in foo::bar) struct Baz {}
    let mut t = SyntaxTree::new(SyntaxKind::SourceFile);
    let item = named(&mut t, 0, SyntaxKind::StructItem, "");
    let vis = named(&mut t, item, SyntaxKind::VisibilityModifier, "");
    token(&mut t, vis, SyntaxKind::Pub, "pub");
    token(&mut t, vis, SyntaxKind::LParen, "(");
    token(&mut t, vis, SyntaxKind::In, "in");
    let path = token(&mut t, vis, SyntaxKind::ScopedIdentifier, "");
    t.add_child(path, SyntaxKind::Identifier, true, Some(FieldName::Path), "foo");
    t.add_child(path, SyntaxKind::Identifier, true, Some(FieldName::Name), "bar");
    token(&mut t, vis, SyntaxKind::RParen, ")");
    field(&mut t, item, SyntaxKind::TypeIdentifier, FieldName::Name, "Baz");

    let analyzer = ScopeAnalyzer::from_tree(&t);
    let root_scope = analyzer.root_scope();

    let variable = analyzer.borrow_variable(root_scope.variables()[0]);
    let definition = analyzer.borrow_definition(variable.definition());
    assert!(matches!(definition.visibility, Visibility::PubInPath(_)));
}

#[test]
fn test_shape_checker_accepts_well_formed_and_rejects_missing_fields() {
    // struct Foo {}
    let mut good = SyntaxTree::new(SyntaxKind::SourceFile);
    let item = named(&mut good, 0, SyntaxKind::StructItem, "");
    field(&mut good, item, SyntaxKind::TypeIdentifier, FieldName::Name, "Foo");
    assert!(check_subtree(&good, 0));

    // A struct item whose name field is missing is a grammar-contract
    // violation, not an analyzable unit.
    let mut bad = SyntaxTree::new(SyntaxKind::SourceFile);
    let item = named(&mut bad, 0, SyntaxKind::StructItem, "");
    named(&mut bad, item, SyntaxKind::TypeIdentifier, "Foo");
    assert!(!check_subtree(&bad, 0));
}
