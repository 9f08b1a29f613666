//! Static name resolution (scope analysis) over a parsed syntax tree.
//!
//! The analyzer walks a syntax tree once, depth-first and pre-order, building a
//! tree of lexical scopes, recording every declaration and every usage of a
//! name, and resolving each usage to the declaration it refers to, or leaving
//! it unresolved when the name escapes the analyzed unit.

mod arenas;
mod ast_helpers;
mod checks;
mod definition;
mod laws;
mod path;
mod reference;
mod scope;
mod scope_analyzer;
mod tree;
mod variable;

pub use arenas::{arenas_wf, pending_once, pending_unresolved, state_ok, AllArenas};
pub use ast_helpers::{
    get_leading_name_node_of_scoped_identifier, get_leading_name_node_of_type, is_attribute_name,
    is_discard, is_enum_variant_name, is_macro_name, is_simple_identifier,
    is_simple_type_identifier, is_underscore, scoped_shape_ok, spec_is_attribute_name,
    spec_is_enum_variant_name, spec_is_macro_name, spec_is_simple_identifier,
    spec_is_simple_type_identifier, spec_leading_name_of_scoped, spec_leading_name_of_type,
    type_shape_ok,
};
pub use checks::{
    check_item_vis, check_scoped_shape, check_shape, check_simple_path, check_subtree,
    check_type_shape, check_use_clause, check_use_list, check_vis_modifier,
};
pub use definition::{
    item_vis_matches, item_vis_ok, vis_eq, vis_matches_modifier, vis_modifier_ok, Definition,
    DefinitionKind, Visibility,
};
pub use laws::{
    law_attribute_resolves_only_to_imports, law_close_outcome_determined, law_declaration_creates_one_variable,
    law_local_binding_not_visible_outside, law_match_recorded_on_variable,
    law_outer_declaration_found_from_inner, law_same_scope_reference_resolves,
    law_unresolved_reference_passes_through,
};
pub use path::{simple_path_ok, spec_simple_path, SimplePath};
pub use reference::{Reference, UsageKind};
pub use scope::{
    candidate, closed_one, closed_scope, defined, delegated, drain_effects, find_match,
    find_match_from, find_resolution, lemma_find_match_props, matched_to, ref_name, referenced,
    resolved_one, scope_opened, unmatched_of, variable_eligible, Scope, ScopeKind,
};
pub use scope_analyzer::{
    analyzer_empty, analyzer_wf, decl_kind_of, decl_name_node, decl_vis_matches, declared_here,
    declared_rel, get_usage_kind, grown, intermediate, nested_opened, neutral_children,
    neutral_subtree, no_kind_in, root_opened, scope_closed, scoped_reference_effect,
    self_import_name, shape_ok, some_vis_defined, some_vis_use_defined, spec_usage_kind,
    subtree_children_ok, subtree_ok, usage_recorded, use_clause_names, use_clause_ok,
    use_decl_rel, use_defined, walk_rel, walked_children, walked_children_except, ScopeAnalyzer,
};
pub use variable::Variable;
pub use tree::{
    child_ok, node_ok, spec_child_by_field, spec_first_named_child, spec_parent, tree_wf,
    FieldName, SyntaxKind, SyntaxNode, SyntaxTree,
};
