//! Scenario checks for the analyzer's stated properties: bubbling
//! resolution, leading-segment-only lookup, attribute eligibility, discard
//! names, first-match selection, recorded visibilities, and determinism
//! across independent runs.

use scope_analysis::{
    DefinitionKind, FieldName, ScopeAnalyzer, SyntaxKind, SyntaxTree, Visibility,
};

fn named(t: &mut SyntaxTree, parent: usize, kind: SyntaxKind, text: &str) -> usize {
    t.add_child(parent, kind, true, None, text)
}

fn field(t: &mut SyntaxTree, parent: usize, kind: SyntaxKind, f: FieldName, text: &str) -> usize {
    t.add_child(parent, kind, true, Some(f), text)
}

fn token(t: &mut SyntaxTree, parent: usize, kind: SyntaxKind, text: &str) -> usize {
    t.add_child(parent, kind, false, None, text)
}

#[test]
fn test_module_level_declaration_resolves_by_bubbling_to_root() {
    // static FOO: usize = 0;
    //
    // fn whee() -> usize {
    //     FOO + 2
    // }
    let mut t = SyntaxTree::new(SyntaxKind::SourceFile);
    let stat = named(&mut t, 0, SyntaxKind::StaticItem, "");
    field(&mut t, stat, SyntaxKind::Identifier, FieldName::Name, "FOO");
    field(&mut t, stat, SyntaxKind::PrimitiveType, FieldName::Ty, "usize");
    field(&mut t, stat, SyntaxKind::IntegerLiteral, FieldName::Value, "0");
    let item = named(&mut t, 0, SyntaxKind::FunctionItem, "");
    field(&mut t, item, SyntaxKind::Identifier, FieldName::Name, "whee");
    let body = field(&mut t, item, SyntaxKind::Block, FieldName::Body, "");
    let sum = named(&mut t, body, SyntaxKind::BinaryExpression, "");
    named(&mut t, sum, SyntaxKind::Identifier, "FOO");
    named(&mut t, sum, SyntaxKind::IntegerLiteral, "2");

    let analyzer = ScopeAnalyzer::from_tree(&t);

    // The usage originates in the function scope, passes through it
    // unresolved, and resolves at the root against the static.
    let function_scope = analyzer.borrow_scope(analyzer.scopes[1]);
    assert_eq!(function_scope.through().len(), 1);
    let variable_foo = analyzer.root_scope().variables()[0];
    let variable = analyzer.borrow_variable(variable_foo);
    assert_eq!(variable.name().as_str(), "FOO");
    assert_eq!(variable.references().len(), 1);
    let reference = analyzer.borrow_reference(variable.references()[0]);
    assert_eq!(reference.resolved(), Some(variable_foo));
}

#[test]
fn test_path_usage_resolves_only_leading_segment() {
    // enum Foo {
    //     Bar,
    // }
    //
    // let foo = Foo::Bar;
    let mut t = SyntaxTree::new(SyntaxKind::SourceFile);
    let item = named(&mut t, 0, SyntaxKind::EnumItem, "");
    field(&mut t, item, SyntaxKind::TypeIdentifier, FieldName::Name, "Foo");
    let body = field(&mut t, item, SyntaxKind::EnumVariantList, FieldName::Body, "");
    let variant = named(&mut t, body, SyntaxKind::EnumVariant, "");
    field(&mut t, variant, SyntaxKind::Identifier, FieldName::Name, "Bar");
    let binding = named(&mut t, 0, SyntaxKind::LetDeclaration, "");
    field(&mut t, binding, SyntaxKind::Identifier, FieldName::Pattern, "foo");
    let value = field(&mut t, binding, SyntaxKind::ScopedIdentifier, FieldName::Value, "");
    let leading = field(&mut t, value, SyntaxKind::Identifier, FieldName::Path, "Foo");
    field(&mut t, value, SyntaxKind::Identifier, FieldName::Name, "Bar");

    let analyzer = ScopeAnalyzer::from_tree(&t);
    let root_scope = analyzer.root_scope();

    // Exactly one usage was recorded: the leading segment. The trailing
    // segment is never independently looked up.
    let references = root_scope.references();
    assert_eq!(references.len(), 1);
    assert_eq!(analyzer.borrow_reference(references[0]).node(), leading);
}

#[test]
fn test_attribute_skips_same_named_non_import() {
    // struct bar {}
    //
    // #[bar]
    // struct Foo;
    let mut t = SyntaxTree::new(SyntaxKind::SourceFile);
    let strukt = named(&mut t, 0, SyntaxKind::StructItem, "");
    field(&mut t, strukt, SyntaxKind::TypeIdentifier, FieldName::Name, "bar");
    let attr_item = named(&mut t, 0, SyntaxKind::AttributeItem, "");
    let attr = named(&mut t, attr_item, SyntaxKind::Attribute, "");
    named(&mut t, attr, SyntaxKind::Identifier, "bar");
    let other = named(&mut t, 0, SyntaxKind::StructItem, "");
    field(&mut t, other, SyntaxKind::TypeIdentifier, FieldName::Name, "Foo");

    let analyzer = ScopeAnalyzer::from_tree(&t);
    let root_scope = analyzer.root_scope();

    // The struct named bar is textually closest, yet the attribute name
    // resolves only against import definitions, so it stays unresolved.
    let references = root_scope.references();
    assert_eq!(references.len(), 1);
    assert_eq!(analyzer.borrow_reference(references[0]).resolved(), None);
    assert!(analyzer
        .borrow_variable(root_scope.variables()[0])
        .references()
        .is_empty());
}

#[test]
fn test_discard_binding_declares_nothing() {
    // let _ = 3;
    let mut t = SyntaxTree::new(SyntaxKind::SourceFile);
    let binding = named(&mut t, 0, SyntaxKind::LetDeclaration, "");
    field(&mut t, binding, SyntaxKind::Identifier, FieldName::Pattern, "_");
    field(&mut t, binding, SyntaxKind::IntegerLiteral, FieldName::Value, "3");

    let analyzer = ScopeAnalyzer::from_tree(&t);

    assert!(analyzer.root_scope().variables().is_empty());
}

#[test]
fn test_first_declaration_in_order_wins() {
    // struct Foo {}
    //
    // union Foo {}
    //
    // type Bar = Foo;
    let mut t = SyntaxTree::new(SyntaxKind::SourceFile);
    let first = named(&mut t, 0, SyntaxKind::StructItem, "");
    field(&mut t, first, SyntaxKind::TypeIdentifier, FieldName::Name, "Foo");
    let second = named(&mut t, 0, SyntaxKind::UnionItem, "");
    field(&mut t, second, SyntaxKind::TypeIdentifier, FieldName::Name, "Foo");
    let alias = named(&mut t, 0, SyntaxKind::TypeItem, "");
    field(&mut t, alias, SyntaxKind::TypeIdentifier, FieldName::Name, "Bar");
    field(&mut t, alias, SyntaxKind::TypeIdentifier, FieldName::Ty, "Foo");

    let analyzer = ScopeAnalyzer::from_tree(&t);
    let root_scope = analyzer.root_scope();

    // No ambiguity error: the first eligible declaration in order wins.
    let variables = root_scope.variables();
    assert_eq!(variables.len(), 3);
    let reference = analyzer.borrow_reference(root_scope.references()[0]);
    assert_eq!(reference.resolved(), Some(variables[0]));
    assert_eq!(
        analyzer
            .borrow_definition(analyzer.borrow_variable(variables[0]).definition())
            .kind(),
        DefinitionKind::Struct
    );
}

#[test]
fn test_visibility_is_recorded() {
    // pub struct Foo {}
    //
    // pub(crate) struct Bar {}
    let mut t = SyntaxTree::new(SyntaxKind::SourceFile);
    let foo = named(&mut t, 0, SyntaxKind::StructItem, "");
    let vis_pub = named(&mut t, foo, SyntaxKind::VisibilityModifier, "");
    token(&mut t, vis_pub, SyntaxKind::Pub, "pub");
    field(&mut t, foo, SyntaxKind::TypeIdentifier, FieldName::Name, "Foo");
    let bar = named(&mut t, 0, SyntaxKind::StructItem, "");
    let vis_crate = named(&mut t, bar, SyntaxKind::VisibilityModifier, "");
    token(&mut t, vis_crate, SyntaxKind::Pub, "pub");
    token(&mut t, vis_crate, SyntaxKind::LParen, "(");
    token(&mut t, vis_crate, SyntaxKind::Crate, "crate");
    token(&mut t, vis_crate, SyntaxKind::RParen, ")");
    field(&mut t, bar, SyntaxKind::TypeIdentifier, FieldName::Name, "Bar");
    let baz = named(&mut t, 0, SyntaxKind::StructItem, "");
    field(&mut t, baz, SyntaxKind::TypeIdentifier, FieldName::Name, "Baz");

    let analyzer = ScopeAnalyzer::from_tree(&t);
    let root_scope = analyzer.root_scope();

    let variables = root_scope.variables();
    assert_eq!(variables.len(), 3);
    let def_foo = analyzer.borrow_definition(analyzer.borrow_variable(variables[0]).definition());
    let def_bar = analyzer.borrow_definition(analyzer.borrow_variable(variables[1]).definition());
    let def_baz = analyzer.borrow_definition(analyzer.borrow_variable(variables[2]).definition());
    assert!(matches!(def_foo.visibility, Visibility::Pub));
    assert!(matches!(def_bar.visibility, Visibility::PubCrate));
    assert!(matches!(def_baz.visibility, Visibility::Private));
}

fn build_mixed_unit() -> SyntaxTree {
    // use foo::bar;
    //
    // static FOO: usize = 0;
    //
    // fn whee() -> usize {
    //     let local = 3;
    //     FOO + local
    // }
    let mut t = SyntaxTree::new(SyntaxKind::SourceFile);
    let item = named(&mut t, 0, SyntaxKind::UseDeclaration, "");
    let arg = field(&mut t, item, SyntaxKind::ScopedIdentifier, FieldName::Argument, "");
    field(&mut t, arg, SyntaxKind::Identifier, FieldName::Path, "foo");
    field(&mut t, arg, SyntaxKind::Identifier, FieldName::Name, "bar");
    let stat = named(&mut t, 0, SyntaxKind::StaticItem, "");
    field(&mut t, stat, SyntaxKind::Identifier, FieldName::Name, "FOO");
    field(&mut t, stat, SyntaxKind::PrimitiveType, FieldName::Ty, "usize");
    field(&mut t, stat, SyntaxKind::IntegerLiteral, FieldName::Value, "0");
    let function = named(&mut t, 0, SyntaxKind::FunctionItem, "");
    field(&mut t, function, SyntaxKind::Identifier, FieldName::Name, "whee");
    let body = field(&mut t, function, SyntaxKind::Block, FieldName::Body, "");
    let binding = named(&mut t, body, SyntaxKind::LetDeclaration, "");
    field(&mut t, binding, SyntaxKind::Identifier, FieldName::Pattern, "local");
    field(&mut t, binding, SyntaxKind::IntegerLiteral, FieldName::Value, "3");
    let sum = named(&mut t, body, SyntaxKind::BinaryExpression, "");
    named(&mut t, sum, SyntaxKind::Identifier, "FOO");
    named(&mut t, sum, SyntaxKind::Identifier, "local");
    t
}

#[test]
fn test_two_runs_on_identical_input_agree() {
    let t1 = build_mixed_unit();
    let t2 = build_mixed_unit();
    let first = ScopeAnalyzer::from_tree(&t1);
    let second = ScopeAnalyzer::from_tree(&t2);

    assert_eq!(first.scopes.len(), second.scopes.len());
    for i in 0..first.scopes.len() {
        let a = first.borrow_scope(first.scopes[i]);
        let b = second.borrow_scope(second.scopes[i]);
        assert_eq!(a.kind(), b.kind());
        assert_eq!(a.variables().len(), b.variables().len());
        assert_eq!(a.references().len(), b.references().len());
        assert_eq!(a.through().len(), b.through().len());
        for k in 0..a.variables().len() {
            let va = first.borrow_variable(a.variables()[k]);
            let vb = second.borrow_variable(b.variables()[k]);
            assert_eq!(va.name(), vb.name());
            assert_eq!(va.references(), vb.references());
            assert_eq!(
                first.borrow_definition(va.definition()).kind(),
                second.borrow_definition(vb.definition()).kind()
            );
        }
        for k in 0..a.references().len() {
            let ra = first.borrow_reference(a.references()[k]);
            let rb = second.borrow_reference(b.references()[k]);
            assert_eq!(ra.node(), rb.node());
            assert_eq!(ra.usage_kind(), rb.usage_kind());
            assert_eq!(ra.resolved(), rb.resolved());
        }
    }
}
