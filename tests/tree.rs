use archunit_rs::ast::{CodeSpan, ItemPath, LineColumn, ModuleUse, Visibility};
use archunit_rs::rule::modules::ModuleRuleViolation;
use archunit_rs::{Filters, ModuleTree, Modules};

fn strings(items: &[&str]) -> Vec<String> {
    items.iter().map(|s| s.to_string()).collect()
}

/// archunit_rs with rule (rule::modules, rule::modules::condition, rule::modules::condition::condition_test,
/// rule::modules::check, rule::modules::module_test tagged test), ast, and a tagged test module.
fn crate_like() -> ModuleTree {
    let mut t = ModuleTree::load("archunit_rs", "src/lib.rs", vec![]);
    let rule = t.add_module(0, "rule", Visibility::Public, "src/rule/mod.rs", Some(CodeSpan::default()), vec![], vec![]);
    let modules = t.add_module(rule, "modules", Visibility::Public, "src/rule/modules/mod.rs", Some(CodeSpan::default()), vec![], vec![]);
    let condition = t.add_module(modules, "condition", Visibility::Restricted, "src/rule/modules/condition.rs", Some(CodeSpan::default()), vec![], vec![]);
    t.add_module(condition, "condition_test", Visibility::Restricted, "src/rule/modules/condition.rs", Some(CodeSpan::default()), strings(&["test"]), vec![]);
    t.add_module(modules, "check", Visibility::Restricted, "src/rule/modules/check.rs", Some(CodeSpan::default()), vec![], vec![]);
    t.add_module(modules, "module_test", Visibility::Restricted, "src/rule/modules/mod.rs", Some(CodeSpan::default()), strings(&["test"]), vec![]);
    let ast = t.add_module(0, "ast", Visibility::Restricted, "src/ast/mod.rs", Some(CodeSpan::default()), vec![],
        vec![ModuleUse { parts: "syn".to_owned(), span: CodeSpan::default() }]);
    t.add_struct(ast, "Ast", vec![], Visibility::Public, vec![], CodeSpan::default(), "src/ast/mod.rs");
    t.add_struct(condition, "Cond", vec![], Visibility::Restricted, vec![], CodeSpan::default(), "src/rule/modules/condition.rs");
    t.add_enum(modules, "AssertionToken", vec![], Visibility::Public, CodeSpan::default(), "src/rule/modules/mod.rs");
    t.add_impl(ast, false, ItemPath::new("Ast".to_owned()), None);
    t
}

fn kept_paths(t: &ModuleTree, members: &[bool]) -> Vec<String> {
    members.iter().enumerate().filter(|(_, m)| **m).map(|(i, _)| t.modules[i].path.as_str().to_owned()).collect()
}

#[test]
fn filter_out_a_module_and_its_children() {
    let t = crate_like();
    let matches = t.module_that(|module| !module.path.reside_in("archunit_rs::rule"), &Filters::default());
    for path in kept_paths(&t, &matches.members) {
        assert!(!path.starts_with("archunit_rs::rule"));
    }
}

#[test]
fn keep_only_a_module_and_its_children() {
    let t = crate_like();
    let matches = t.module_that(|module| module.path.reside_in("archunit_rs::rule"), &Filters::default());
    let paths = kept_paths(&t, &matches.members);
    assert!(!paths.is_empty());
    for path in paths {
        assert!(path.starts_with("archunit_rs::rule"));
    }
}

#[test]
fn paths_mirror_parent_join_child() {
    let t = crate_like();
    assert_eq!(t.modules[0].path.as_str(), "archunit_rs");
    assert_eq!(t.modules[3].path.as_str(), "archunit_rs::rule::modules::condition");
    assert_eq!(t.structs[1].path.as_str(), "archunit_rs::rule::modules::condition::Cond");
    assert_eq!(t.enums[0].path.as_str(), "archunit_rs::rule::modules::AssertionToken");
    assert_eq!(t.impls[0].path.as_str(), "archunit_rs::ast");
    assert!(t.modules[0].span.is_none());
}

#[test]
fn tagged_subtree_is_excluded_everywhere() {
    let mut t = crate_like();
    let rule = 1;
    let tagged = t.add_module(rule, "fixtures", Visibility::Restricted, "src/rule/fixtures.rs", Some(CodeSpan::default()), strings(&["test"]), vec![]);
    let child = t.add_module(tagged, "inner", Visibility::Restricted, "src/rule/fixtures/inner.rs", Some(CodeSpan::default()), vec![],
        vec![ModuleUse { parts: "archunit_rs::ast".to_owned(), span: CodeSpan::default() }]);
    t.add_struct(child, "Fixture", vec![], Visibility::Public, vec![], CodeSpan::default(), "src/rule/fixtures/inner.rs");
    t.add_enum(child, "FixtureKind", vec![], Visibility::Public, CodeSpan::default(), "src/rule/fixtures/inner.rs");

    let filters = Filters::default().exclude_test();
    let modules = t.flatten(&filters);
    assert!(!modules.members[tagged]);
    assert!(!modules.members[child]);
    assert!(modules.members[rule]);
    let deps = t.flatten_deps(&filters);
    assert!(!deps.members[child]);
    let structs = t.flatten_structs(&filters);
    assert_eq!(structs.members, vec![true, true, false]);
    let enums = t.flatten_enums(&filters);
    assert_eq!(enums.members, vec![true, false]);

    let everything = t.flatten(&Filters::default());
    assert!(everything.members.iter().all(|m| *m));
    assert_eq!(t.flatten_structs(&Filters::default()).members, vec![true, true, true]);
}

#[test]
fn exclude_cfg_names_any_tag() {
    let filters = Filters::default().exclude_cfg("feature_x");
    assert_eq!(filters.exclude_cfg, strings(&["feature_x"]));
    let filters = filters.exclude_test();
    assert_eq!(filters.exclude_cfg, strings(&["feature_x", "test"]));
    let t = crate_like();
    assert!(filters.filter(&t.modules[1]));
    assert!(!filters.filter(&t.modules[4]));
}

#[test]
fn should_filter_enums() {
    let t = crate_like();
    let all = t.flatten_enums(&Filters::default());
    let matches = all.enums_that(&t, |e| e.ident == "AssertionToken");
    assert_eq!(matches.members.iter().filter(|m| **m).count(), 1);
    let public = all.enums_that(&t, |e| e.is_public());
    assert!(public.members.iter().any(|m| *m));
}

#[test]
fn should_check_assertion() {
    let t = crate_like();
    let all = t.flatten_structs(&Filters::default());
    let matches = all.structs_that(&t, |s| s.ident == "Ast");
    assert_eq!(matches.members.iter().filter(|m| **m).count(), 1);
    let public = all.structs_that(&t, |s| s.is_public());
    assert!(public.members.iter().any(|m| *m));
    let private = all.structs_that(&t, |s| !s.is_public());
    assert!(private.members.iter().any(|m| *m));
}

#[test]
fn impl_matches_queries() {
    let t = crate_like();
    let impls = t.flatten_impls(&Filters::default());
    assert!(!impls.is_empty());
    assert_eq!(impls.types(&t), vec!["Ast"]);
    let none = impls.impl_that(&t, |imp| imp.trait_impl.is_some());
    assert!(none.is_empty());
    assert!(!t.impls[0].provides("Ast", "Debug"));
}

#[test]
fn matches_union() {
    let t = crate_like();
    let all = t.flatten_structs(&Filters::default());
    let mut a = all.structs_that(&t, |s| s.ident == "Ast");
    let b = all.structs_that(&t, |s| s.ident == "Cond");
    a.extends(b);
    assert_eq!(a.members, vec![true, true]);

    let modules = t.flatten(&Filters::default());
    let mut m = t.module_that(|m| m.ident == "ast", &Filters::default());
    m.extend(t.module_that(|m| m.ident == "rule", &Filters::default()));
    assert_eq!(m.members.iter().filter(|x| **x).count(), 2);
    assert_eq!(modules.members.len(), m.members.len());
}

#[test]
fn struct_and_enum_queries() {
    let t = crate_like();
    let s = &t.structs[0];
    assert!(s.all());
    assert!(s.is_public());
    assert!(s.path_match("archunit_rs::ast"));
    assert!(!s.path_match("Ast"));
    assert!(!s.derives("Debug"));
    assert!(!s.has_non_public_field());
    let e = &t.enums[0];
    assert!(e.is_public());
    assert!(e.path_match("*::modules"));
    assert!(!e.derives("Debug"));
    assert!(t.modules[1].is_public());
    assert!(t.modules[1].path_match("archunit_rs::*"));
}

#[test]
fn should_filter_modules_with_or_conjunctions() {
    let t = crate_like();
    let mut rule = Modules::that(Filters::default())
        .reside_in_a_module("archunit_rs::rule::modules::*")
        .or()
        .have_simple_name("ast")
        .0;
    rule.apply_conditions(&t);
    let paths = kept_paths(&t, &rule.subject.members);
    assert_eq!(
        rule.assertion_results.expected,
        "Modules that resides in a modules that match 'archunit_rs::rule::modules::*' or have simple name 'ast'"
    );
    for expected in [
        "archunit_rs::rule::modules::module_test",
        "archunit_rs::rule::modules::condition",
        "archunit_rs::rule::modules::condition::condition_test",
        "archunit_rs::rule::modules::check",
        "archunit_rs::ast",
    ] {
        assert!(paths.contains(&expected.to_owned()), "{expected} missing");
    }
}

#[test]
fn module_should_be_private_ok_excluding_cfg_test() {
    let t = crate_like();
    let result = Modules::that(Filters::default().exclude_test())
        .reside_in_a_module("archunit_rs::rule::modules::*")
        .or()
        .have_simple_name("ast")
        .should()
        .be_private()
        .check(&t);
    assert!(result.is_ok());
}

#[test]
fn should_not_panic_when_dependencies_matches_pattern() {
    let mut t = crate_like();
    t.add_module(1, "pattern", Visibility::Public, "src/rule/pattern.rs", Some(CodeSpan::default()), vec![],
        vec![ModuleUse { parts: "wildmatch".to_owned(), span: CodeSpan::default() }]);
    let result = Modules::that(Filters::default().exclude_test())
        .have_simple_name("pattern")
        .should()
        .only_have_dependency_module()
        .that()
        .have_simple_name("wildmatch")
        .check(&t);
    assert!(result.is_ok());
}

fn pattern_module_with_test_submodule() -> ModuleTree {
    let mut t = crate_like();
    let pattern = t.add_module(1, "pattern", Visibility::Public, "src/rule/pattern.rs", Some(CodeSpan::default()), vec![],
        vec![ModuleUse { parts: "wildmatch".to_owned(), span: CodeSpan::default() }]);
    let span = CodeSpan {
        start: LineColumn { line: 42, column: 4 },
        end: LineColumn { line: 42, column: 30 },
    };
    t.add_module(pattern, "test", Visibility::Restricted, "src/rule/pattern.rs", Some(CodeSpan::default()), strings(&["test"]),
        vec![ModuleUse { parts: "speculoos::prelude".to_owned(), span }]);
    t
}

#[test]
fn should_panic_when_dependencies_does_not_match_pattern() {
    let t = pattern_module_with_test_submodule();
    let err = Modules::that(Filters::default())
        .have_simple_name("pattern")
        .should()
        .only_have_dependency_module()
        .that()
        .have_simple_name("wildmatch")
        .check(&t)
        .expect_err("the test submodule imports speculoos");
    assert_eq!(err.actual.len(), 1);
    match &err.actual[0] {
        ModuleRuleViolation::DependencyHaveNameMatching { accessed_in, dependency, span, .. } => {
            assert_eq!(accessed_in, "archunit_rs::rule::pattern::test");
            assert_eq!(dependency, "speculoos::prelude");
            assert_eq!(span.start.line, 42);
        }
        other => panic!("unexpected violation {other:?}"),
    }
}

#[test]
fn dependency_check_skips_excluded_submodules() {
    let t = pattern_module_with_test_submodule();
    let result = Modules::that(Filters::default().exclude_test())
        .have_simple_name("pattern")
        .should()
        .only_have_dependency_module()
        .that()
        .have_simple_name("wildmatch")
        .check(&t);
    assert!(result.is_ok());
}
