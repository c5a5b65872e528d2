use fasm_cli::pystr::{py_int, PyStr};
use fasm_cli::unicode::{decimal_value, is_printable};

fn s(text: &str) -> PyStr {
    PyStr::from_str(text)
}

#[test]
fn surrogateescape_round_trip() {
    let bytes = b"a\xff\xc3\xa9\xe2\x82";
    let p = PyStr::from_bytes_surrogateescape(bytes);
    assert_eq!(p.0, vec![0x61, 0xDCFF, 0xE9, 0xDCE2, 0xDC82]);
    assert_eq!(p.encode_surrogateescape(), bytes);
    assert_eq!(p.encode_backslashreplace(), "a\\udcffé\\udce2\\udc82");
}

#[test]
fn repr_matches_python() {
    // Expected values from Python 3.11's repr().
    assert_eq!(s("x").repr(), s("'x'"));
    assert_eq!(s("").repr(), s("''"));
    assert_eq!(s("it's").repr(), s("\"it's\""));
    assert_eq!(s("it's \"q\"").repr(), s("'it\\'s \"q\"'"));
    assert_eq!(s("a\\b").repr(), s("'a\\\\b'"));
    assert_eq!(s("\t\n\r\x01\x7f").repr(), s("'\\t\\n\\r\\x01\\x7f'"));
    assert_eq!(s("é\u{a0}\u{ad}").repr(), s("'é\\xa0\\xad'"));
    assert_eq!(s("\u{2028}\u{e000}").repr(), s("'\\u2028\\ue000'"));
    assert_eq!(s("\u{10ffff}\u{1f600}").repr(), s("'\\U0010ffff\u{1f600}'"));
    let p = PyStr::from_bytes_surrogateescape(b"x\xff");
    assert_eq!(p.repr(), s("'x\\udcff'"));
}

#[test]
fn printable() {
    assert!(is_printable(0xE9));
    assert!(!is_printable(0x85));
    assert!(!is_printable(0xA0));
    assert!(!is_printable(0xDC80));
    // Unassigned in Unicode 14 (Python 3.11): not printable.
    assert!(!is_printable(0x0378));
    assert!(is_printable(0x1F600));
}

#[test]
fn decimal_values() {
    assert_eq!(decimal_value(u32::from('0')), Some(0));
    assert_eq!(decimal_value(u32::from('9')), Some(9));
    assert_eq!(decimal_value(u32::from('a')), None);
    assert_eq!(decimal_value(u32::from('/')), None);
    assert_eq!(decimal_value(0x0663), Some(3)); // ARABIC-INDIC DIGIT THREE
    assert_eq!(decimal_value(0x00B2), None); // SUPERSCRIPT TWO: not Nd
    assert_eq!(decimal_value(0), None);
}

#[test]
fn int_matches_python() {
    assert_eq!(py_int(&s("80")), Some(80));
    assert_eq!(py_int(&s(" \t+80\n")), Some(80));
    assert_eq!(py_int(&s("-5")), Some(-5));
    assert_eq!(py_int(&s("1_0")), Some(10));
    assert_eq!(py_int(&s("007")), Some(7));
    assert_eq!(py_int(&s("\u{3000}\u{0661}\u{0662}")), Some(12));
    assert_eq!(py_int(&s("99999999999999999999999")), Some(i64::MAX));
    for bad in [
        "", " ", "+", "-", "_1", "1_", "1__0", "1 0", "0x10", "1.0", "a",
    ] {
        assert_eq!(py_int(&s(bad)), None, "{bad:?}");
    }
    assert_eq!(py_int(&PyStr::from_bytes_surrogateescape(b"8\xff")), None);
    // `sys.int_max_str_digits`: at most 4300 digits, leading zeros
    // included, underscores, whitespace and the sign excluded.
    let digits = |prefix: &str, n: usize, suffix: &str| {
        py_int(&s(&format!("{prefix}{}{suffix}", "1".repeat(n))))
    };
    assert_eq!(digits("", 4300, ""), Some(i64::MAX));
    assert_eq!(digits(" -", 4300, " "), Some(-i64::MAX));
    assert_eq!(digits("", 4301, ""), None);
    assert_eq!(py_int(&s(&format!("{}50", "0".repeat(4299)))), None);
    assert_eq!(py_int(&s(&format!("{}50", "0".repeat(4298)))), Some(50));
    assert_eq!(
        py_int(&s(&format!("{}1", "1_".repeat(4299)))),
        Some(i64::MAX)
    );
}

#[test]
fn int_reads_back_decimal_texts() {
    for n in [0i64, 1, -1, 42, -7_000_000, i64::MAX, -i64::MAX, 1_700_000_000] {
        assert_eq!(py_int(&PyStr::from_str(&n.to_string())), Some(n));
    }
    // The magnitude of `i64::MIN` saturates.
    assert_eq!(py_int(&PyStr::from_str(&i64::MIN.to_string())), Some(-i64::MAX));
}
