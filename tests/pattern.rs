use archunit_rs::ast::ItemPath;
use archunit_rs::pattern::PathPattern;

#[test]
fn wildcard_only_should_match() {
    let pattern = PathPattern::from("*");
    assert!(pattern.matches_struct_path("archunit_rs::rule::modules::Modules"));
}

#[test]
fn wildcard_suffix_should_match() {
    let pattern = PathPattern::from("archunit_rs::*");
    assert!(pattern.matches_struct_path("archunit_rs::rule::modules::Modules"));

    let pattern = PathPattern::from("archunit_rs::rule::*");
    assert!(pattern.matches_struct_path("archunit_rs::rule::modules::Modules"));
}

#[test]
fn wildcard_prefix_should_match() {
    let pattern = PathPattern::from("*::rule::*");
    assert!(pattern.matches_struct_path("archunit_rs::rule::modules::Modules"));

    let pattern = PathPattern::from("*::modules");
    assert!(pattern.matches_struct_path("archunit_rs::rule::modules::Modules"));
}

#[test]
fn inner_wildcard_should_match() {
    let pattern = PathPattern::from("archunit_rs::*::modules");
    assert!(pattern.matches_struct_path("archunit_rs::rule::modules::Modules"));
}

#[test]
fn inner_wildcard_should_fail() {
    let pattern = PathPattern::from("archunit_rs::*::mod");
    assert!(!pattern.matches_struct_path("archunit_rs::rule::modules::Modules"));
}

#[test]
fn wild_card_does_not_match_when_after_direct_parent() {
    let pattern = PathPattern::from("archunit_rs::rule::modules::*");
    assert!(!pattern.matches_struct_path("archunit_rs::rule::modules::Modules"));
}

#[test]
fn should_match_exact() {
    let pattern = PathPattern::from("archunit_rs::rule::modules");
    assert!(pattern.matches_struct_path("archunit_rs::rule::modules::Modules"));
}

#[test]
fn should_not_match() {
    let pattern = PathPattern::from("archunit_rs");
    assert!(!pattern.matches_struct_path("archunit_rs::rule::modules::Modules"));

    let pattern = PathPattern::from("archunit_rs::rule");
    assert!(!pattern.matches_struct_path("archunit_rs::rule::modules::Modules"));
}

#[test]
fn match_module_path() {
    let pattern = PathPattern::from("archunit_rs::rule::modules::*");
    assert!(pattern.matches_module_path("archunit_rs::rule::modules::module_test"));
}

#[test]
fn type_pattern_never_matches_the_leaf_name() {
    assert!(!PathPattern::from("Foo").matches_struct_path("pkg::mod::Foo"));
    assert!(PathPattern::from("Foo").matches_module_path("Foo"));
    assert!(PathPattern::from("pkg::mod").matches_struct_path("pkg::mod::Foo"));
}

#[test]
fn struct_path_without_separator_never_matches() {
    assert!(!PathPattern::from("*").matches_struct_path("Foo"));
}

#[test]
fn trailing_separator_is_ignored() {
    assert!(PathPattern::from("pkg::mod::").matches_module_path("pkg::mod"));
    assert!(ItemPath::new("pkg::mod::Foo".to_owned()).match_struct_path("pkg::mod::"));
}

#[test]
fn single_character_wildcard() {
    assert!(PathPattern::from("c?t").matches_module_path("cat"));
    assert!(!PathPattern::from("c?t").matches_module_path("ct"));
    assert!(!PathPattern::from("????").matches_module_path("cat"));
    assert!(PathPattern::from("*cat*").matches_module_path("dog_cat_dog"));
    assert!(!PathPattern::from("dog").matches_module_path("cat"));
}

#[test]
fn matching_is_case_sensitive() {
    assert!(!PathPattern::from("foo").matches_module_path("Foo"));
}
