use archunit_rs::assertion_result::{get_code_sample_region, AssertionResult};
use archunit_rs::ast::{CodeSpan, LineColumn};

fn lines(start: usize, end: usize) -> CodeSpan {
    CodeSpan {
        start: LineColumn { line: start, column: 0 },
        end: LineColumn { line: end, column: 0 },
    }
}

#[test]
fn sample_region_keeps_the_spanned_lines() {
    let source = "use a;\nstruct B {\r\n    x: u8,\n}\n";
    assert_eq!(get_code_sample_region(source, &lines(2, 3)), "struct B {\n    x: u8,");
    assert_eq!(get_code_sample_region(source, &lines(1, 1)), "use a;");
}

#[test]
fn sample_region_is_clamped_to_the_file() {
    let source = "a\nb";
    assert_eq!(get_code_sample_region(source, &lines(0, 9)), "a\nb");
    assert_eq!(get_code_sample_region(source, &lines(5, 9)), "");
    assert_eq!(get_code_sample_region("", &lines(1, 1)), "");
}

#[test]
fn sample_region_of_blank_lines() {
    assert_eq!(get_code_sample_region("\n\nx\n", &lines(1, 3)), "\n\nx");
}

#[test]
fn assertion_result_accumulates() {
    let mut result: AssertionResult<u8> = AssertionResult::new();
    result.push_expected("Structs that ");
    result.push_expected("are declared public");
    result.push_actual(3);
    assert_eq!(result.expected, "Structs that are declared public");
    assert_eq!(result.actual, vec![3]);
}
