use blazelint::bytes::{
    ascii_lowercase, contains, find_col, leading_spaces, leading_tabs, starts_with, trim,
};
use blazelint::language::{is_js_ts, is_py, is_rust, language_of, str_is, Language};
use blazelint::lines::split_lines;
use blazelint::report::decimal_string;
use blazelint::{is_target_file, should_skip, FileStamp};

#[test]
fn target_extensions() {
    for ext in ["py", "rs", "js", "ts", "jsx", "tsx", "go", "cpp", "c", "cc", "h", "java", "cs"] {
        assert!(is_target_file(ext), "{ext}");
    }
    for ext in ["", "txt", "PY", "md", "pyc", "r"] {
        assert!(!is_target_file(ext), "{ext}");
    }
}

#[test]
fn language_predicates() {
    assert!(is_py("py"));
    assert!(!is_py("pyi"));
    assert!(is_rust("rs"));
    assert!(!is_rust(""));
    assert!(is_js_ts("jsx"));
    assert!(is_js_ts("ts"));
    assert!(!is_js_ts("go"));
    assert_eq!(language_of("tsx"), Language::Script);
    assert_eq!(language_of("go"), Language::Other);
    assert!(str_is("h\u{e9}", "h\u{e9}"));
    assert!(!str_is("ab", "abc"));
}

#[test]
fn trim_strips_edges() {
    assert_eq!(trim(b" \t x y \r"), b"x y");
    assert_eq!(trim(b"\r"), b"");
    assert_eq!(trim(b"\rx"), b"\rx");
    assert_eq!(trim(b"   "), b"");
    assert_eq!(trim(b""), b"");
    assert_eq!(trim(trim(b"  a\t\r")), trim(b"  a\t\r"));
}

#[test]
fn contains_and_columns() {
    assert!(contains(b"x == None", b"== None"));
    assert!(!contains(b"x == None", b""));
    assert!(!contains(b"ab", b"abc"));
    assert_eq!(find_col(b"abcabc", b"ca"), 3);
    assert_eq!(find_col(b"abc", b"zz"), 1);
    assert_eq!(find_col(b"abc", b""), 0);
    assert_eq!(find_col(b"ab", b"abc"), 1);
    assert!(starts_with(b"def f():", b"def "));
    assert!(!starts_with(b"de", b"def "));
}

#[test]
fn leading_runs() {
    assert_eq!(leading_spaces(b"   x"), 3);
    assert_eq!(leading_spaces(b"\t x"), 0);
    assert_eq!(leading_tabs(b"\t\tx"), 2);
    assert_eq!(leading_tabs(b""), 0);
}

#[test]
fn lowercase_is_ascii_only() {
    assert_eq!(ascii_lowercase(b"PassWord=\xc3\x89"), b"password=\xc3\x89".to_vec());
}

#[test]
fn split_into_lines() {
    let empty: Vec<&[u8]> = Vec::new();
    assert_eq!(split_lines(b""), empty);
    assert_eq!(split_lines(b"a\nb"), vec![&b"a"[..], &b"b"[..]]);
    assert_eq!(split_lines(b"a\n"), vec![&b"a"[..]]);
    assert_eq!(split_lines(b"\n"), vec![&b""[..]]);
    assert_eq!(split_lines(b"a\n\nb\n"), vec![&b"a"[..], &b""[..], &b"b"[..]]);
    assert_eq!(split_lines(b"a\r\nb"), vec![&b"a\r"[..], &b"b"[..]]);
}

#[test]
fn decimal_notation() {
    assert_eq!(decimal_string(0), "0");
    assert_eq!(decimal_string(7), "7");
    assert_eq!(decimal_string(120), "120");
    assert_eq!(decimal_string(usize::MAX), usize::MAX.to_string());
}

#[test]
fn cache_skips_only_unchanged_files() {
    let now = FileStamp { modified_nanos: 1_700_000_000_000_000_000, size: 42 };
    assert!(should_skip(false, Some(now), now));
    assert!(!should_skip(true, Some(now), now));
    assert!(!should_skip(false, None, now));
    assert!(!should_skip(false, Some(FileStamp { size: 41, ..now }), now));
    assert!(!should_skip(false, Some(FileStamp { modified_nanos: -5, ..now }), now));
}
