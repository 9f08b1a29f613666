//! A source unit with nothing to declare or use yields exactly one scope,
//! the root, with no variables and no references.

use scope_analysis::{ScopeAnalyzer, ScopeKind, SyntaxKind, SyntaxTree};

#[test]
fn test_empty_file_creates_root_scope() {
    let t = SyntaxTree::new(SyntaxKind::SourceFile);
    let analyzer = ScopeAnalyzer::from_tree(&t);

    assert_eq!(analyzer.scopes.len(), 1);
}

#[test]
fn test_neutral_items_only_create_root_scope() {
    // 3 + 4
    let mut t = SyntaxTree::new(SyntaxKind::SourceFile);
    let statement = t.add_child(0, SyntaxKind::ExpressionStatement, true, None, "");
    let sum = t.add_child(statement, SyntaxKind::BinaryExpression, true, None, "");
    t.add_child(sum, SyntaxKind::IntegerLiteral, true, None, "3");
    t.add_child(sum, SyntaxKind::IntegerLiteral, true, None, "4");

    let analyzer = ScopeAnalyzer::from_tree(&t);

    assert_eq!(analyzer.scopes.len(), 1);
    let root_scope = analyzer.root_scope();
    assert_eq!(root_scope.kind(), ScopeKind::Root);
    assert!(root_scope.variables().is_empty());
    assert!(root_scope.references().is_empty());
    assert!(root_scope.through().is_empty());
}
