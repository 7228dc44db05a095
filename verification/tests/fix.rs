use blazelint::fix::fix_line;
use blazelint::{analyze_and_fix, lint_content, Language};

#[test]
fn python_fixes() {
    let out = lint_content(b"if x == None:  \nif y != None:\nok = 1\n", "py", 100, true);
    assert_eq!(out.new_content, b"if x is None:\nif y is not None:\nok = 1\n".to_vec());
    assert_eq!(out.fixed_lines, 2);
    assert!(out.needs_fix);
}

#[test]
fn only_first_none_comparison_is_fixed() {
    let out = lint_content(b"a == None or b == None", "py", 100, true);
    assert_eq!(out.new_content, b"a is None or b == None".to_vec());
    assert_eq!(out.fixed_lines, 1);
}

#[test]
fn missing_final_newline_is_kept() {
    let out = lint_content(b"a \nb ", "txt", 100, true);
    assert_eq!(out.new_content, b"a\nb".to_vec());
    assert_eq!(out.fixed_lines, 2);
}

#[test]
fn script_var_becomes_let() {
    let out = lint_content(b"var x = 1\n  var y = 2\n", "js", 100, true);
    assert_eq!(out.new_content, b"let x = 1\n  var y = 2\n".to_vec());
    assert_eq!(out.fixed_lines, 1);
}

#[test]
fn without_fix_content_is_unchanged() {
    for src in [&b""[..], b"\n", b"a", b"a \n", b"x == None  \r\nvar y\n\n", b"no newline at end  "] {
        let out = lint_content(src, "py", 100, false);
        assert_eq!(out.new_content, src.to_vec());
        assert_eq!(out.fixed_lines, 0);
        assert!(!out.needs_fix);
    }
}

#[test]
fn nothing_to_fix_keeps_content() {
    let src = b"def f():\n    return 1\n";
    let out = lint_content(src, "py", 100, true);
    assert_eq!(out.new_content, src.to_vec());
    assert!(!out.needs_fix);
    let analysis = analyze_and_fix(src, "py", "f.py", 100, true);
    assert!(analysis.rewrite.is_none());
}

#[test]
fn fixed_lines_have_no_trailing_blank() {
    for (line, lang) in [
        (&b"var  \t"[..], Language::Script),
        (b"x == None ", Language::Python),
        (b"y != None\t\t", Language::Python),
        (b"   ", Language::Other),
    ] {
        let (fixed, changed) = fix_line(line, lang);
        assert!(changed);
        assert!(!matches!(fixed.last(), Some(b' ') | Some(b'\t')), "{:?}", fixed);
    }
    assert_eq!(fix_line(b"var  \t", Language::Script).0, b"var".to_vec());
}

#[test]
fn analysis_rewrites_only_in_fix_mode() {
    let src = b"x = 1   \n";
    let plain = analyze_and_fix(src, "py", "a.py", 100, false);
    assert!(plain.rewrite.is_none());
    assert_eq!(plain.fixed_lines, 0);
    let fixed = analyze_and_fix(src, "py", "a.py", 100, true);
    assert_eq!(fixed.rewrite, Some(b"x = 1\n".to_vec()));
    assert_eq!(fixed.fixed_lines, 1);
    assert_eq!(fixed.messages.len(), 1);
}

#[test]
fn fixes_keep_the_lines_apart_from_an_emptied_last_line() {
    let out = lint_content(b"a = 1 \n\tb == None\t\n", "py", 100, true);
    let text = String::from_utf8(out.new_content).unwrap();
    assert_eq!(text.lines().collect::<Vec<_>>(), vec!["a = 1", "\tb is None"]);
    let edge = lint_content(b"a\n   ", "txt", 100, true);
    assert_eq!(edge.new_content, b"a\n".to_vec());
    assert_eq!(edge.fixed_lines, 1);
}

#[test]
fn fixed_content_has_no_trailing_whitespace_report() {
    for (src, ext) in [
        (&b"a = 1 \n\tb == None\t\n  \t"[..], "py"),
        (b"var x = 1;\t\n \n", "js"),
        (b"x \r\ny  ", "rs"),
    ] {
        let fixed = lint_content(src, ext, 100, true).new_content;
        let again = lint_content(&fixed, ext, 100, false);
        assert!(again.reports.iter().all(|r| r.code != "W291" && r.code != "W293"), "{:?}", fixed);
    }
}
