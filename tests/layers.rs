use archunit_rs::ast::{CodeSpan, LineColumn, ModuleUse, Visibility};
use archunit_rs::layer_rule::{layered_architecture, LayerAssertion};
use archunit_rs::ModuleTree;

fn span(line: usize) -> CodeSpan {
    CodeSpan {
        start: LineColumn { line, column: 0 },
        end: LineColumn { line, column: 20 },
    }
}

fn import(parts: &str, line: usize) -> ModuleUse {
    ModuleUse {
        parts: parts.to_owned(),
        span: span(line),
    }
}

/// app with app::rule, app::ast (importing the rule layer) and app::other (importing it too).
fn app_tree() -> ModuleTree {
    let mut tree = ModuleTree::load("app", "src/lib.rs", vec![]);
    let rule = tree.add_module(0, "rule", Visibility::Public, "src/rule.rs", Some(span(1)), vec![], vec![]);
    tree.add_module(rule, "inner", Visibility::Restricted, "src/rule/inner.rs", Some(span(1)), vec![], vec![import("app::rule::X", 1)]);
    tree.add_module(0, "ast", Visibility::Public, "src/ast.rs", Some(span(2)), vec![], vec![import("app::rule::X", 3)]);
    tree.add_module(0, "other", Visibility::Public, "src/other.rs", Some(span(3)), vec![], vec![import("std::fmt", 1), import("app::rule::X", 7)]);
    tree
}

#[test]
fn check_test() {
    let chain = layered_architecture()
        .layer("Rule")
        .defined_by("archunit_rs::rule")
        .layer("Ast")
        .defined_by("archunit_rs::ast");
    assert!(chain.is_defined("Rule"));
    let builder = chain.where_layer("Rule");
    assert_eq!(builder.layer, "Rule");
}

#[test]
fn mod_test() {
    let chain = layered_architecture()
        .layer("Rule")
        .defined_by("archunit_rs::rule")
        .layer("Ast")
        .defined_by("archunit_rs::ast")
        .where_layer("Ast")
        .may_not_be_accessed_by_any_layer()
        .where_layer("Rule")
        .may_only_be_accessed_by_layer("Ast");

    let architecture = chain.architecture;
    assert_eq!(architecture.layer_path("Rule").map(|s| s.as_str()), Some("archunit_rs::rule"));
    assert_eq!(architecture.layer_path("Ast").map(|s| s.as_str()), Some("archunit_rs::ast"));
    assert_eq!(architecture.layer_assertion("Ast"), Some(&LayerAssertion::MayNotBeAccessedByAnyLayer));
    assert_eq!(
        architecture.layer_assertion("Rule"),
        Some(&LayerAssertion::MayOnlyBeAccessedByLayer("Ast".to_owned()))
    );
}

#[test]
fn redefining_a_layer_replaces_its_path() {
    let chain = layered_architecture()
        .layer("Rule")
        .defined_by("a")
        .layer("Rule")
        .defined_by("b");
    assert_eq!(chain.architecture.layer_path("Rule").map(|s| s.as_str()), Some("b"));
    assert_eq!(chain.architecture.layer_definitions.len(), 1);
    assert!(!chain.is_defined("Ast"));
}

#[test]
fn layer_access_violation_is_precise() {
    let tree = app_tree();
    let result = layered_architecture()
        .layer("Rule")
        .defined_by("app::rule")
        .layer("Ast")
        .defined_by("app::ast")
        .where_layer("Rule")
        .may_only_be_accessed_by_layer("Ast")
        .check(&tree);

    let violations = result.expect_err("app::other imports the rule layer");
    assert_eq!(violations.len(), 1);
    let v = &violations[0];
    assert_eq!(v.layer, "Rule");
    assert_eq!(v.layer_module, "app::rule");
    assert_eq!(v.accessed_in, "app::other");
    assert_eq!(v.location, "src/other.rs");
    assert_eq!(v.dependency, "app::rule::X");
    assert_eq!(v.span, span(7));
}

#[test]
fn access_from_the_allowed_layer_is_no_violation() {
    let mut tree = ModuleTree::load("app", "src/lib.rs", vec![]);
    tree.add_module(0, "rule", Visibility::Public, "src/rule.rs", Some(span(1)), vec![], vec![]);
    tree.add_module(0, "ast", Visibility::Public, "src/ast.rs", Some(span(2)), vec![], vec![import("app::rule::X", 3)]);
    let result = layered_architecture()
        .layer("Rule")
        .defined_by("app::rule")
        .layer("Ast")
        .defined_by("app::ast")
        .where_layer("Rule")
        .may_only_be_accessed_by_layer("Ast")
        .check(&tree);
    assert!(result.is_ok());
}

#[test]
fn crate_relative_imports_are_read_with_the_crate_name() {
    let mut tree = ModuleTree::load("app", "src/lib.rs", vec![]);
    tree.add_module(0, "rule", Visibility::Public, "src/rule.rs", Some(span(1)), vec![], vec![]);
    tree.add_module(0, "other", Visibility::Public, "src/other.rs", Some(span(2)), vec![], vec![import("crate::rule::X", 4)]);
    let violations = layered_architecture()
        .layer("Rule")
        .defined_by("app::rule")
        .where_layer("Rule")
        .may_not_be_accessed_by_any_layer()
        .check(&tree)
        .expect_err("crate::rule is the rule layer");
    assert_eq!(violations.len(), 1);
    assert_eq!(violations[0].accessed_in, "app::other");
}

#[test]
fn not_accessed_by_any_layer_flags_every_outside_import() {
    let tree = app_tree();
    let violations = layered_architecture()
        .layer("Rule")
        .defined_by("app::rule")
        .where_layer("Rule")
        .may_not_be_accessed_by_any_layer()
        .check(&tree)
        .expect_err("two outside modules import the rule layer");
    assert_eq!(violations.len(), 2);
    assert_eq!(violations[0].accessed_in, "app::ast");
    assert_eq!(violations[1].accessed_in, "app::other");
}

#[test]
fn accessed_by_listed_layers() {
    let tree = app_tree();
    let result = layered_architecture()
        .layer("Rule")
        .defined_by("app::rule")
        .layer("Ast")
        .defined_by("app::ast")
        .layer("Other")
        .defined_by("app::other")
        .where_layer("Rule")
        .may_only_be_accessed_by_layers(&["Ast", "Other"])
        .check(&tree);
    assert!(result.is_ok());

    let violations = layered_architecture()
        .layer("Rule")
        .defined_by("app::rule")
        .layer("Ast")
        .defined_by("app::ast")
        .where_layer("Rule")
        .may_only_be_accessed_by_layers(&["Ast"])
        .check(&tree)
        .expect_err("app::other is not allowed");
    assert_eq!(violations.len(), 1);
    assert_eq!(violations[0].accessed_in, "app::other");
}

#[test]
fn layers_without_assertion_are_passive() {
    let tree = app_tree();
    let chain = layered_architecture().layer("Rule").defined_by("app::rule");
    let architecture = chain.architecture;
    assert!(architecture.check(&tree).is_ok());
}
