use fasm_cli::argparse::format_help;
use fasm_cli::pystr::PyStr;
use fasm_cli::tool::canonical::{canonical_text, sorted_set, text_order_key};
use fasm_cli::tool::{
    byte_offset, check_parser, code_points, error_after, error_output, line_text, logical_line_end,
    next_position, output_text, report_step, resume, start, ErrorAt, LineParts, ReportStep, Resume, ToolStart,
};

struct Output {
    code: u8,
    stdout: Vec<u8>,
    stderr: Vec<u8>,
}

fn run_tool(args: &[&str]) -> Output {
    let args: Vec<PyStr> = args.iter().map(|a| PyStr::from_str(a)).collect();
    match start(&args, 80) {
        ToolStart::Exit(e) => Output { code: e.code, stdout: e.stdout.into_bytes(), stderr: e.stderr.into_bytes() },
        ToolStart::Run(_) => panic!("the arguments were accepted"),
    }
}

#[test]
fn logical_line_end_skips_annotation_values() {
    let data = b"a = 2 { x = \"1\n\\\"#\r2\" } # c\"\nrest";
    assert_eq!(logical_line_end(data, 4), 28);
    assert_eq!(logical_line_end(b"a = 2", 4), 5);
    assert_eq!(logical_line_end(b"a = 2 # c", 4), 9);
}

#[test]
fn byte_offsets() {
    assert_eq!(byte_offset(b"ab\ncd", 2, 1), Some(4));
    assert_eq!(byte_offset(b"\xEF\xBB\xBFab", 1, 1), Some(4));
    assert_eq!(byte_offset("é\u{1F600}x".as_bytes(), 1, 2), Some(6));
    assert_eq!(byte_offset(b"ab", 2, 0), None);
}

#[test]
fn help_and_usage_errors() {
    let out = run_tool(&["--help"]);
    assert_eq!(out.code, 0);
    assert_eq!(out.stdout, format_help(80).as_bytes());
    assert!(out.stderr.is_empty());

    let out = run_tool(&[]);
    assert_eq!(out.code, 2);
    assert!(out.stdout.is_empty());
    assert_eq!(
        String::from_utf8(out.stderr).unwrap(),
        "usage: FASM tool [-h] [--canonical] [--parser PARSER] file\n\
         FASM tool: error: the following arguments are required: file\n"
    );
}

#[test]
fn text_order_key_orders_like_the_text() {
    let mut addresses: Vec<u32> = (0..2000).collect();
    addresses.extend([
        9_999,
        10_000,
        99_999,
        100_000,
        u32::MAX,
        u32::MAX - 1,
        4_000_000_000,
        1_000_000_000,
        999_999_999,
    ]);
    let mut by_key = addresses.clone();
    by_key.sort_by_key(|&a| text_order_key(a));
    let mut by_text = addresses.clone();
    by_text.sort_by_key(|&a| format!("{a}]"));
    assert_eq!(by_key, by_text);
    // Distinct addresses have distinct keys.
    let mut keys: Vec<u64> = addresses.iter().map(|&a| text_order_key(a)).collect();
    keys.sort_unstable();
    keys.dedup();
    assert_eq!(keys.len(), addresses.len());
}

#[test]
fn text_order_key_values() {
    // The digits in base 11, padded with tens to ten digits.
    assert_eq!(text_order_key(0), 11u64.pow(9) - 1);
    assert_eq!(text_order_key(u32::MAX), 4 * 11u64.pow(9) + 2 * 11u64.pow(8) + 9 * 11u64.pow(7)
        + 4 * 11u64.pow(6) + 9 * 11u64.pow(5) + 6 * 11u64.pow(4) + 7 * 11u64.pow(3) + 2 * 11u64.pow(2)
        + 9 * 11 + 5);
}

#[test]
fn parser_names() {
    assert_eq!(check_parser(None), Ok(()));
    for name in ["antlr", "textx", "rust"] {
        assert_eq!(check_parser(Some(&PyStr::from_str(name))), Ok(()));
    }
    assert_eq!(
        check_parser(Some(&PyStr::from_str("foo"))),
        Err(b"Parser 'foo' is not available.".to_vec())
    );
    assert_eq!(
        check_parser(Some(&PyStr::from_bytes_surrogateescape(b"\xff"))),
        Err(b"Parser '\xff' is not available.".to_vec())
    );
    assert_eq!(error_output(b"boom"), b"Error: boom\n".to_vec());
}

#[test]
fn code_point_columns() {
    assert_eq!(code_points("é\u{1F600}x".as_bytes()), 3);
    assert_eq!(code_points(b""), 0);
}

#[test]
fn resume_after_a_range_error() {
    // `a = 2` (range error at 1:4), the line ends at offset 5.
    let data = b"a = 2\nb c\n";
    assert_eq!(resume(data, 1, 4), Some(Resume { end: 5, line: 1, column: 5 }));
    // A line terminator in an annotation value moves to the next line.
    let data = b"a = 2 { x = \"1\ny\" } # q\nb c\n";
    assert_eq!(resume(data, 1, 4), Some(Resume { end: 23, line: 2, column: 8 }));
    // The last line: nothing to resume.
    assert_eq!(resume(b"a = 2", 1, 4), None);
    // An error on the first line of the rest continues the line.
    let r = Resume { end: 5, line: 1, column: 5 };
    assert_eq!(next_position(r, 1, 3), (1, 8));
    assert_eq!(next_position(r, 2, 1), (2, 1));
}

fn parts(feature: Option<&str>, annotations: &[(&str, &str)], comment: Option<&str>) -> LineParts {
    LineParts {
        feature: feature.map(str::to_owned),
        annotations: annotations.iter().map(|(n, v)| (n.to_string(), v.to_string())).collect(),
        comment: comment.map(str::to_owned),
    }
}

/// The output for the parsed lines `lines`.
fn render_lines(lines: &[LineParts]) -> String {
    output_text(&lines.iter().map(line_text).collect())
}

#[test]
fn line_parts() {
    // `#`
    assert_eq!(render_lines(&[parts(None, &[], Some(""))]), "#\n\n");
    // `A.B[3:0] = 4'hA { x = "1", y = "" } # c`
    assert_eq!(
        render_lines(&[parts(Some("A.B[3:0] = 4'hA"), &[("x", "1"), ("y", "")], Some(" c"))]),
        "A.B[3:0] = 4'hA { x = \"1\", y = \"\" } # c\n\n"
    );
    // `A # c\r\nB`
    assert_eq!(render_lines(&[parts(Some("A"), &[], Some(" c")), parts(Some("B"), &[], None)]), "A # c\nB\n\n");
    // `{ a = "b" } #x`
    assert_eq!(render_lines(&[parts(None, &[("a", "b")], Some("x"))]), "{ a = \"b\" } #x\n\n");
    assert_eq!(line_text(&parts(Some("A"), &[], None)), "A");
    assert_eq!(line_text(&parts(None, &[], None)), "");
}

#[test]
fn empty_inputs() {
    // Files without lines (``, `\n\n`, `  \n`).
    assert_eq!(output_text(&vec![]), "\n\n");
    assert_eq!(canonical_text(&vec![]), "\n\n");
    // `# c`, `{ a = "b" }`, `A = 0`: no canonical lines.
    assert_eq!(
        render_lines(&[
            parts(None, &[], Some(" c")),
            parts(None, &[("a", "b")], None),
            parts(Some("A = 0"), &[], None),
        ]),
        "# c\n{ a = \"b\" }\nA = 0\n\n"
    );
}

#[test]
fn empty_and_plain_outputs() {
    assert_eq!(output_text(&vec![]), "\n\n");
    assert_eq!(output_text(&vec!["A # c".to_string(), "B".to_string()]), "A # c\nB\n\n");
}

#[test]
fn canonical_is_sorted_and_deduplicated() {
    // The canonical lines of `B[2:0] = 3'b101`, `A`, `B[2]`, `A[0]`.
    let lines: Vec<String> = ["B", "B[2]", "A", "B[2]", "A"].iter().map(|s| s.to_string()).collect();
    assert_eq!(canonical_text(&lines), "A\nB\nB[2]\n\n");
}

#[test]
fn canonical_order_is_the_code_point_order() {
    let lines: Vec<String> = ["B[2]", "B[0]", "A", "B[2]", "A", "B[10]"].iter().map(|s| s.to_string()).collect();
    assert_eq!(canonical_text(&lines), "A\nB[0]\nB[10]\nB[2]\n\n");
    let sorted = sorted_set(&vec!["é".to_string(), "z".to_string(), "Z".to_string(), "z".to_string()]);
    assert_eq!(sorted, vec!["Z".to_string(), "z".to_string(), "é".to_string()]);
}

#[test]
fn bracket_in_feature_name_falls_back_to_sorting_formatted_lines() {
    // `A[` and `A[1]x` are feature names containing `[`; duplicates and
    // ordinary addressed and bare features too.
    let lines: Vec<String> =
        ["A[", "A[1]x[5]", "A[1]x[5]", "B", "B[2]", "B[10]", "A["].iter().map(|s| s.to_string()).collect();
    let mut expected: Vec<String> =
        ["A[", "A[1]x[5]", "B", "B[2]", "B[10]"].iter().map(|s| s.to_string()).collect();
    expected.sort();
    expected.dedup();
    assert_eq!(sorted_set(&lines), expected);
    let text: String = expected.iter().map(|l| format!("{l}\n")).collect();
    assert_eq!(canonical_text(&lines), format!("{text}\n"));
}

#[test]
fn choosing_the_reported_error() {
    let data: &[u8] = b"A[3:0] = 5'h10\nb c\n";
    // A syntax error is reported as it is.
    let syntax = ErrorAt { line: 1, column: 2, late: false };
    assert_eq!(report_step(data, syntax), ReportStep::ReportCurrent);
    // After a range error the parse resumes at the end of its line.
    let range = ErrorAt { line: 1, column: 9, late: true };
    let r = Resume { end: 14, line: 1, column: 14 };
    assert_eq!(report_step(data, range), ReportStep::ParseFrom(r));
    // The syntax error on the next line takes its place, placed in the file.
    let next = ErrorAt { line: 2, column: 2, late: false };
    assert_eq!(error_after(r, Some(next)), Some(ErrorAt { line: 2, column: 2, late: false }));
    // An error on the resumed line itself continues its columns.
    let same_line = ErrorAt { line: 1, column: 3, late: true };
    assert_eq!(error_after(r, Some(same_line)), Some(ErrorAt { line: 1, column: 17, late: true }));
    // No later error: the first one is reported.
    assert_eq!(error_after(r, None), None);
    // A range error on the last line: the first error is reported.
    assert_eq!(report_step(b"a = 2", ErrorAt { line: 1, column: 4, late: true }), ReportStep::ReportFirst);
}
