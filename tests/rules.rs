use archunit_rs::ast::{CodeSpan, Field, ItemPath, ModuleUse, Visibility};
use archunit_rs::rule::enums::Enums;
use archunit_rs::rule::enums::{AssertionToken as A, ConditionToken as C, SimpleAssertions as S};
use archunit_rs::rule::modules::{self as module_rules, ModuleRuleViolation};
use archunit_rs::rule::structs::{
    AssertionConjunction, AssertionToken, ConditionToken, SimpleAssertions, StructRuleViolation,
};
use archunit_rs::{Filters, ModuleTree, Modules, Structs};

fn strings(items: &[&str]) -> Vec<String> {
    items.iter().map(|s| s.to_string()).collect()
}

fn field(name: Option<&str>, visibility: Visibility) -> Field {
    Field {
        visibility,
        name: name.map(|n| n.to_owned()),
        span: CodeSpan::default(),
        type_: "u32".to_owned(),
    }
}

/// app
///   model (pub): Foo (private, derives Debug), Bar (pub, no derive, impl Display), Baz (pub, derives Debug, Clone)
///   other (pub): Foo (pub), Qux (private, fields pub a / private b)
///   tests (tagged `test`, private): Helper (private)
///     deep: Deeper (private)
fn tree() -> ModuleTree {
    let mut t = ModuleTree::load("app", "src/lib.rs", vec![]);
    let model = t.add_module(0, "model", Visibility::Public, "src/model.rs", Some(CodeSpan::default()), vec![], vec![]);
    let other = t.add_module(0, "other", Visibility::Public, "src/other.rs", Some(CodeSpan::default()), vec![],
        vec![ModuleUse { parts: "std::fmt".to_owned(), span: CodeSpan::default() }]);
    let tests = t.add_module(0, "tests", Visibility::Restricted, "src/tests.rs", Some(CodeSpan::default()), strings(&["test"]), vec![]);
    let deep = t.add_module(tests, "deep", Visibility::Restricted, "src/tests/deep.rs", Some(CodeSpan::default()), vec![], vec![]);
    t.add_struct(model, "Foo", strings(&["Debug"]), Visibility::Restricted, vec![], CodeSpan::default(), "src/model.rs");
    t.add_struct(model, "Bar", vec![], Visibility::Public, vec![field(Some("x"), Visibility::Public)], CodeSpan::default(), "src/model.rs");
    t.add_struct(model, "Baz", strings(&["Debug", "Clone"]), Visibility::Public, vec![], CodeSpan::default(), "src/model.rs");
    t.add_struct(other, "Foo", vec![], Visibility::Public, vec![], CodeSpan::default(), "src/other.rs");
    t.add_struct(other, "Qux", vec![], Visibility::Restricted,
        vec![field(Some("a"), Visibility::Public), field(None, Visibility::Restricted)], CodeSpan::default(), "src/other.rs");
    t.add_struct(tests, "Helper", vec![], Visibility::Restricted, vec![], CodeSpan::default(), "src/tests.rs");
    t.add_struct(deep, "Deeper", vec![], Visibility::Restricted, vec![], CodeSpan::default(), "src/tests/deep.rs");
    t.add_impl(model, false, ItemPath::new("Bar".to_owned()), Some(ItemPath::new("std::fmt::Display".to_owned())));
    t.add_enum(model, "Kind", strings(&["Debug"]), Visibility::Public, CodeSpan::default(), "src/model.rs");
    t.add_enum(other, "Mode", vec![], Visibility::Restricted, CodeSpan::default(), "src/other.rs");
    t
}

fn selected_idents(t: &ModuleTree, members: &[bool]) -> Vec<String> {
    members.iter().enumerate().filter(|(_, m)| **m).map(|(i, _)| t.structs[i].ident.clone()).collect()
}

fn struct_names(violations: &[StructRuleViolation]) -> Vec<String> {
    violations
        .iter()
        .map(|v| match v {
            StructRuleViolation::Derive { struct_name, .. }
            | StructRuleViolation::Implement { struct_name, .. }
            | StructRuleViolation::ImplementOrDerive { struct_name, .. }
            | StructRuleViolation::BePrivate { struct_name, .. }
            | StructRuleViolation::BePublic { struct_name, .. }
            | StructRuleViolation::OnlyHavePrivateFields { struct_name, .. }
            | StructRuleViolation::OnlyHavePublicFields { struct_name, .. }
            | StructRuleViolation::HaveNameMatching { struct_name, .. } => struct_name.clone(),
        })
        .collect()
}

#[test]
fn mod_should_build_arch_rule_for_struct() {
    let rule = Structs::that(Filters::default())
        .derives("Debug")
        .and()
        .implement("Display")
        .or()
        .reside_in_a_module("::check")
        .and()
        .are_declared_private()
        .and()
        .have_simple_name("Name")
        .should()
        .implement("Name")
        .or_should()
        .be_public()
        .and_should()
        .have_simple_name("Name")
        .or_should()
        .be_private()
        .or_should()
        .only_have_private_fields()
        .or_should()
        .only_have_public_fields();

    let c = &rule.0.conditions;
    assert_eq!(c.len(), 10);
    assert!(matches!(&c[0], ConditionToken::Derives(t) if t == "Debug"));
    assert!(matches!(&c[1], ConditionToken::And));
    assert!(matches!(&c[2], ConditionToken::Implement(t) if t == "Display"));
    assert!(matches!(&c[3], ConditionToken::Or));
    assert!(matches!(&c[4], ConditionToken::ResidesInAModule(m) if m == "::check"));
    assert!(matches!(&c[5], ConditionToken::And));
    assert!(matches!(&c[6], ConditionToken::AreDeclaredPrivate));
    assert!(matches!(&c[7], ConditionToken::And));
    assert!(matches!(&c[8], ConditionToken::HaveSimpleName(n) if n == "Name"));
    assert!(matches!(&c[9], ConditionToken::Should));

    let a = &rule.0.assertions;
    assert_eq!(a.len(), 11);
    assert!(matches!(&a[0], AssertionToken::SimpleAssertion(SimpleAssertions::Implement(t)) if t == "Name"));
    assert!(matches!(&a[1], AssertionToken::Conjunction(AssertionConjunction::OrShould)));
    assert!(matches!(&a[2], AssertionToken::SimpleAssertion(SimpleAssertions::BePublic)));
    assert!(matches!(&a[3], AssertionToken::Conjunction(AssertionConjunction::AndShould)));
    assert!(matches!(&a[4], AssertionToken::SimpleAssertion(SimpleAssertions::HaveSimpleName(n)) if n == "Name"));
    assert!(matches!(&a[5], AssertionToken::Conjunction(AssertionConjunction::OrShould)));
    assert!(matches!(&a[6], AssertionToken::SimpleAssertion(SimpleAssertions::BePrivate)));
    assert!(matches!(&a[7], AssertionToken::Conjunction(AssertionConjunction::OrShould)));
    assert!(matches!(&a[8], AssertionToken::SimpleAssertion(SimpleAssertions::OnlyHavePrivateFields)));
    assert!(matches!(&a[9], AssertionToken::Conjunction(AssertionConjunction::OrShould)));
    assert!(matches!(&a[10], AssertionToken::SimpleAssertion(SimpleAssertions::OnlyHavePublicFields)));
}

#[test]
fn should_build_arch_rule_for_module() {
    let rule = Modules::that(Filters::default())
        .reside_in_a_module("foo::bar")
        .or()
        .are_declared_public()
        .and()
        .have_simple_name("toto")
        .should()
        .only_have_dependency_module()
        .that()
        .have_simple_name("toto")
        .and_should()
        .be_public();

    let c = &rule.0.conditions;
    assert_eq!(c.len(), 6);
    assert!(matches!(&c[0], module_rules::ConditionToken::ResidesInAModule(m) if m == "foo::bar"));
    assert!(matches!(&c[1], module_rules::ConditionToken::Or));
    assert!(matches!(&c[2], module_rules::ConditionToken::AreDeclaredPublic));
    assert!(matches!(&c[3], module_rules::ConditionToken::And));
    assert!(matches!(&c[4], module_rules::ConditionToken::HaveSimpleName(n) if n == "toto"));
    assert!(matches!(&c[5], module_rules::ConditionToken::Should));

    let a = &rule.0.assertions;
    assert_eq!(a.len(), 5);
    assert!(matches!(&a[0], module_rules::AssertionToken::DependencyAssertionConjunction(
        module_rules::DependencyAssertionConjunction::OnlyHaveDependencyModule
    )));
    assert!(matches!(&a[1], module_rules::AssertionToken::DependencyAssertion(module_rules::DependencyAssertion::That)));
    assert!(matches!(&a[2], module_rules::AssertionToken::SimpleAssertion(module_rules::SimpleAssertions::HaveSimpleName(n)) if n == "toto"));
    assert!(matches!(&a[3], module_rules::AssertionToken::Conjunction(module_rules::AssertionConjunction::AndShould)));
    assert!(matches!(&a[4], module_rules::AssertionToken::SimpleAssertion(module_rules::SimpleAssertions::BePublic)));
}

#[test]
fn all_structs_should_derive_debug_reports_exactly_those_without() {
    let t = tree();
    let err = Structs::all_should(Filters::default()).derive("Debug").check(&t).expect_err("some structs lack Debug");
    assert_eq!(struct_names(&err.actual), strings(&["Bar", "Foo", "Qux", "Helper", "Deeper"]));
    assert_eq!(err.expected, "All structs should derive 'Debug'");
    match &err.actual[0] {
        StructRuleViolation::Derive { struct_name, trait_name, location, .. } => {
            assert_eq!(struct_name, "Bar");
            assert_eq!(trait_name, "Debug");
            assert_eq!(location, "src/model.rs");
        }
        other => panic!("unexpected violation {other:?}"),
    }
}

#[test]
fn simple_name_and_private_selects_the_private_one() {
    let t = tree();
    let mut rule = Structs::that(Filters::default()).have_simple_name("Foo").and().are_declared_private().0;
    rule.apply_conditions(&t);
    let names = selected_idents(&t, &rule.subject.members);
    assert_eq!(names, strings(&["Foo"]));
    let index = rule.subject.members.iter().position(|m| *m).expect("one match");
    assert_eq!(t.structs[index].path.as_str(), "app::model::Foo");
    assert_eq!(rule.assertion_results.expected, "Structs that have simple name 'Foo' and are declared private");
}

#[test]
fn and_intersects_or_unites() {
    let t = tree();
    let mut and_rule = Structs::that(Filters::default()).are_declared_public().and().derives("Debug").should().0;
    and_rule.apply_conditions(&t);
    assert_eq!(selected_idents(&t, &and_rule.subject.members), strings(&["Baz"]));

    let mut or_rule = Structs::that(Filters::default()).are_declared_public().or().derives("Debug").should().0;
    or_rule.apply_conditions(&t);
    assert_eq!(selected_idents(&t, &or_rule.subject.members), strings(&["Foo", "Bar", "Baz", "Foo"]));
    assert_eq!(or_rule.assertion_results.expected, "Structs that are declared public or derive Debug to ");
}

#[test]
fn implement_or_derive_flags_only_structs_with_neither() {
    let t = tree();
    let err = Structs::that(Filters::default())
        .reside_in_a_module("app::model")
        .should()
        .implement_or_derive("Display")
        .check(&t)
        .expect_err("Foo and Baz neither derive nor implement Display");
    assert_eq!(struct_names(&err.actual), strings(&["Foo", "Baz"]));
    assert!(matches!(&err.actual[0], StructRuleViolation::ImplementOrDerive { trait_name, .. } if trait_name == "Display"));

    let ok = Structs::that(Filters::default())
        .have_simple_name("Bar")
        .or()
        .have_simple_name("Baz")
        .should()
        .implement_or_derive("Debug")
        .check(&t);
    assert!(ok.is_err());
    let ok = Structs::that(Filters::default()).have_simple_name("Baz").should().implement_or_derive("Debug").check(&t);
    assert!(ok.is_ok());
    let ok = Structs::that(Filters::default()).have_simple_name("Bar").should().implement_or_derive("Display").check(&t);
    assert!(ok.is_ok());
}

#[test]
fn one_violation_per_violator() {
    let t = tree();
    let err = Structs::all_should(Filters::default().exclude_test()).be_public().check(&t).expect_err("two private");
    assert_eq!(err.actual.len(), 2);
    assert_eq!(struct_names(&err.actual), strings(&["Foo", "Qux"]));
    assert!(matches!(&err.actual[0], StructRuleViolation::BePublic { vis: Visibility::Restricted, .. }));
}

#[test]
fn implement_uses_impl_blocks_by_simple_name() {
    let t = tree();
    assert!(Structs::that(Filters::default()).implement("Display").should().have_simple_name("Bar").check(&t).is_ok());
    let err = Structs::that(Filters::default()).have_simple_name("Baz").should().implement("Display").check(&t).expect_err("no impl");
    assert!(matches!(&err.actual[0], StructRuleViolation::Implement { struct_name, .. } if struct_name == "Baz"));
}

#[test]
fn have_name_matching_uses_wildcards() {
    let t = tree();
    let mut rule = Structs::that(Filters::default()).have_name_matching("B*").should().0;
    rule.apply_conditions(&t);
    assert_eq!(selected_idents(&t, &rule.subject.members), strings(&["Bar", "Baz"]));
}

#[test]
fn field_assertions_report_field_positions() {
    let t = tree();
    let err = Structs::that(Filters::default())
        .have_simple_name("Qux")
        .should()
        .only_have_private_fields()
        .check(&t)
        .expect_err("Qux has a public field");
    match &err.actual[0] {
        StructRuleViolation::OnlyHavePrivateFields { fields, .. } => assert_eq!(fields, &vec![0]),
        other => panic!("unexpected violation {other:?}"),
    }
    assert!(Structs::that(Filters::default()).have_simple_name("Foo").should().only_have_private_fields().check(&t).is_ok());

    let err = Structs::that(Filters::default()).have_simple_name("Qux").should().only_have_public_fields().check(&t).expect_err("field 1");
    match &err.actual[0] {
        StructRuleViolation::OnlyHavePublicFields { fields, .. } => assert_eq!(fields, &vec![1]),
        other => panic!("unexpected violation {other:?}"),
    }

    let err = Structs::that(Filters::default()).have_simple_name("Bar").should().only_have_private_fields().check(&t).expect_err("x is public");
    match &err.actual[0] {
        StructRuleViolation::OnlyHavePrivateFields { fields, struct_name, .. } => {
            assert_eq!(fields, &vec![0]);
            assert_eq!(struct_name, "Bar");
        }
        other => panic!("unexpected violation {other:?}"),
    }
}

#[test]
fn name_assertion_reports_pattern() {
    let t = tree();
    let err = Structs::that(Filters::default()).reside_in_a_module("app::other").should().have_simple_name("Foo").check(&t).expect_err("Qux");
    assert!(matches!(&err.actual[0], StructRuleViolation::HaveNameMatching { struct_name, pattern, .. } if struct_name == "Qux" && pattern == "Foo"));
    assert_eq!(err.expected, "Structs that resides in a modules that match 'app::other' to have simple name 'Foo'");
}

#[test]
fn private_assertion_and_conjunctions() {
    let t = tree();
    let err = Structs::that(Filters::default()).reside_in_a_module("app::model").should().be_private().or_should().be_public().check(&t);
    let err = err.expect_err("violations are always reported");
    assert_eq!(err.expected, "Structs that resides in a modules that match 'app::model' to be private or be public");
    assert_eq!(err.actual.len(), 3);
    assert!(matches!(&err.actual[0], StructRuleViolation::BePrivate { .. }));
}

#[test]
fn no_match_means_success() {
    let t = tree();
    assert!(Structs::that(Filters::default()).have_simple_name("Nothing").should().be_public().check(&t).is_ok());
}

#[test]
fn enum_rules() {
    let t = tree();
    let err = Enums::all_should(Filters::default()).derive("Debug").check(&t).expect_err("Mode lacks Debug");
    assert_eq!(err.actual.len(), 1);
    assert_eq!(err.expected, "All enums should derive 'Debug'");
    assert!(Enums::that(Filters::default()).are_declared_public().should().be_public().check(&t).is_ok());
    let err = Enums::that(Filters::default()).have_simple_name("Mode").should().be_public().check(&t).expect_err("private");
    assert_eq!(err.expected, "Enums that have simple name 'Mode' to be public");
}

#[test]
fn should_build_arch_rule_for_enum() {
    let rule = Enums::that(Filters::default())
        .derives("Debug")
        .and()
        .implement("Display")
        .should()
        .implement("Name")
        .or_should()
        .be_public();
    assert_eq!(rule.0.conditions.len(), 4);
    assert!(matches!(&rule.0.conditions[2], C::Implement(t) if t == "Display"));
    assert!(matches!(&rule.0.assertions[0], A::SimpleAssertion(S::Implement(t)) if t == "Name"));
    assert!(matches!(&rule.0.assertions[2], A::SimpleAssertion(S::BePublic)));
}

#[test]
fn module_rules_with_or_conjunction() {
    let t = tree();
    let mut rule = Modules::that(Filters::default()).reside_in_a_module("app::*").or().have_simple_name("app").0;
    rule.apply_conditions(&t);
    assert_eq!(rule.subject.members, vec![true, true, true, true, true]);
    assert_eq!(rule.assertion_results.expected, "Modules that resides in a modules that match 'app::*' or have simple name 'app'");
}

#[test]
fn module_should_be_private_excluding_tests() {
    let t = tree();
    let err = Modules::that(Filters::default().exclude_test()).reside_in_a_module("app::*").should().be_private().check(&t).expect_err("public modules");
    assert_eq!(err.actual.len(), 2);
    assert!(matches!(&err.actual[0], ModuleRuleViolation::BePrivate { module_name, .. } if module_name == "model"));
}

#[test]
fn module_dependency_pattern() {
    let t = tree();
    let err = Modules::that(Filters::default())
        .have_simple_name("other")
        .should()
        .only_have_dependency_module()
        .that()
        .have_simple_name("serde*")
        .check(&t)
        .expect_err("std::fmt does not match");
    assert_eq!(err.actual.len(), 1);
    match &err.actual[0] {
        ModuleRuleViolation::DependencyHaveNameMatching { accessed_in, pattern, dependency, location, .. } => {
            assert_eq!(accessed_in, "app::other");
            assert_eq!(pattern, "serde*");
            assert_eq!(dependency, "std::fmt");
            assert_eq!(location, "src/other.rs");
        }
        other => panic!("unexpected violation {other:?}"),
    }
    assert_eq!(err.expected, "Modules that have simple name 'other' to only have dependencies matching pattern 'serde*'");
    assert!(Modules::that(Filters::default())
        .have_simple_name("other")
        .should()
        .only_have_dependency_module()
        .that()
        .have_simple_name("std::*")
        .check(&t)
        .is_ok());
}

#[test]
fn module_simple_name_assertion() {
    let t = tree();
    let err = Modules::that(Filters::default().exclude_test())
        .reside_in_a_module("app::*")
        .should()
        .have_simple_name("model")
        .check(&t)
        .expect_err("other");
    assert!(matches!(&err.actual[0], ModuleRuleViolation::HaveSimpleName { module_name, pattern, .. } if module_name == "other" && pattern == "model"));
    assert!(Modules::that(Filters::default().exclude_test())
        .reside_in_a_module("app::*")
        .should()
        .have_simple_name("model")
        .or_should()
        .have_simple_name("other")
        .check(&t)
        .is_err());
}

#[test]
fn module_name_prefix_and_suffix_conditions() {
    let t = tree();
    let mut rule = Modules::that(Filters::default()).have_simple_name_ending_with("er").or().have_simple_name_starting_with("mo").0;
    rule.apply_conditions(&t);
    assert_eq!(rule.subject.members, vec![false, true, true, false, false]);
}

#[test]
fn module_public_assertion_reports_root_without_span() {
    let mut t = ModuleTree::load("app", "src/lib.rs", vec![]);
    t.add_module(0, "hidden", Visibility::Restricted, "src/hidden.rs", Some(CodeSpan::default()), vec![], vec![]);
    let err = Modules::all_should(Filters::default()).be_private().check(&t).expect_err("root is public");
    assert!(matches!(&err.actual[0], ModuleRuleViolation::BePrivate { span: None, .. }));
    let err = Modules::all_should(Filters::default()).be_public().check(&t).expect_err("hidden is private");
    assert!(matches!(&err.actual[0], ModuleRuleViolation::BePublic { span: Some(_), .. }));
}
