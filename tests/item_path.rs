use archunit_rs::ast::{CodeSpan, ItemPath, LineColumn, ModuleUse};

#[test]
fn should_reside_in_works() {
    let path = ItemPath::new("foo::bar::baz".to_owned());

    assert!(path.reside_in("foo"));
    assert!(path.reside_in("foo::bar"));
    assert!(!path.reside_in("foo::bar:biz"));
    assert!(!path.reside_in("bar::foo"));
}

#[test]
fn should_reside_in_any() {
    let path = ItemPath::new("foo::bar::baz".to_owned());

    assert!(path.reside_in_any(&["foo".to_owned(), "biz".to_owned(), "bar".to_owned()]));
    assert!(path.reside_in_any(&["foo::bar".to_owned(), "biz".to_owned(), "bar".to_owned()]));
    assert!(!path.reside_in_any(&["biz".to_owned(), "bar".to_owned()]));
}

#[test]
fn reside_in_any_of_nothing_is_false() {
    let path = ItemPath::new("foo".to_owned());
    assert!(!path.reside_in_any(&[]));
}

#[test]
fn join_adds_a_separator_only_after_a_segment() {
    let root = ItemPath::empty().join("app");
    assert_eq!(root.as_str(), "app");
    let child = root.join("rule");
    assert_eq!(child.as_str(), "app::rule");
}

#[test]
fn name_is_the_last_segment() {
    assert_eq!(ItemPath::new("a::b::Foo".to_owned()).name(), "Foo");
    assert_eq!(ItemPath::new("Foo".to_owned()).name(), "Foo");
    assert_eq!(ItemPath::new("".to_owned()).name(), "");
}

#[test]
fn contains_finds_a_substring() {
    let path = ItemPath::new("std::fmt::Debug".to_owned());
    assert!(path.contains("Debug"));
    assert!(path.contains("fmt::De"));
    assert!(path.contains(""));
    assert!(!path.contains("Display"));
}

#[test]
fn module_path_and_struct_path_matching() {
    let path = ItemPath::new("app::rule::Foo".to_owned());
    assert!(path.match_module_path("app::rule::*"));
    assert!(path.match_struct_path("app::rule"));
    assert!(!path.match_struct_path("app::rule::Foo"));
}

fn usage(parts: &str) -> ModuleUse {
    ModuleUse {
        parts: parts.to_owned(),
        span: CodeSpan::default(),
    }
}

#[test]
fn should_match_module_use_start() {
    let module_usage = usage("archunit_rs::rule::enums::Enums");

    assert!(module_usage.starts_with("archunit_rs::rule", "archunit_rs"));
    assert!(!module_usage.starts_with("archunit_rs::ast", "archunit_rs"));
    assert!(!module_usage.starts_with("ast", "archunit_rs"));
}

#[test]
fn should_match_module_use_start_start_when_usage_start_with_crate() {
    let module_usage = usage("crate::rule::enums::Enums");

    assert!(module_usage.starts_with("archunit_rs::rule", "archunit_rs"));
    assert!(!module_usage.starts_with("archunit_rs::ast", "archunit_rs"));
    assert!(!module_usage.starts_with("ast", "archunit_rs"));
}

#[test]
fn module_use_matching_uses_module_path_mode() {
    let module_usage = usage("wildmatch");
    assert!(module_usage.matching("wildmatch"));
    assert!(module_usage.matching("wild*"));
    assert!(!module_usage.matching("miette"));
}

#[test]
fn code_span_holds_its_ends() {
    let span = CodeSpan {
        start: LineColumn { line: 3, column: 4 },
        end: LineColumn { line: 3, column: 9 },
    };
    assert_eq!(span.end.column - span.start.column, 5);
}
