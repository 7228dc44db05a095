use blazelint::lint_content;

/// (code, message, line, col, fixable) of each report, in order.
fn lint(src: &str, ext: &str, max: usize) -> Vec<(String, String, usize, usize, bool)> {
    lint_content(src.as_bytes(), ext, max, false)
        .reports
        .into_iter()
        .map(|r| (r.code.to_string(), r.message, r.line, r.col, r.fixable))
        .collect()
}

fn codes(src: &str, ext: &str) -> Vec<String> {
    lint(src, ext, 100).into_iter().map(|r| r.0).collect()
}

fn one(code: &str, message: &str, line: usize, col: usize, fixable: bool) -> (String, String, usize, usize, bool) {
    (code.to_string(), message.to_string(), line, col, fixable)
}

#[test]
fn long_line() {
    assert_eq!(lint("abcdef", "txt", 3), vec![one("E501", "line too long (6 > 3)", 1, 4, false)]);
    assert!(lint("abc", "txt", 3).is_empty());
}

#[test]
fn trailing_whitespace_codes_and_columns() {
    assert_eq!(lint("x  ", "txt", 100), vec![one("W291", "trailing whitespace", 1, 2, true)]);
    assert_eq!(lint("  x \t", "txt", 100), vec![one("W293", "trailing whitespace", 1, 4, true)]);
    assert_eq!(lint("   ", "txt", 100), vec![one("W293", "trailing whitespace", 1, 1, true)]);
    assert!(lint("a \r\nb", "txt", 100).is_empty());
}

#[test]
fn tab_indentation() {
    assert_eq!(lint("\tx = 1", "py", 100), vec![one("W191", "indentation contains tabs", 1, 1, false)]);
    assert_eq!(codes("\tx = 1;", "ts"), vec!["W191"]);
    assert!(codes("\tlet x = 1;", "rs").is_empty());
}

#[test]
fn python_blank_lines() {
    assert_eq!(
        lint("import os\n\n\n\ndef f():\n    pass\n", "py", 100),
        vec![one("E303", "too many blank lines (3)", 5, 1, false)]
    );
    assert_eq!(
        lint("x = 1\ndef f():\n    pass\n", "py", 100),
        vec![one("E302", "expected 2 blank lines before top-level definition", 2, 1, false)]
    );
    assert!(codes("def f():\n    pass\n", "py").is_empty());
    assert!(codes("x = 1\n\n\nclass A:\n    pass\n", "py").is_empty());
}

#[test]
fn python_none_comparisons() {
    assert_eq!(
        lint("    if x == None:", "py", 100),
        vec![one("E711", "comparison to None (use 'is None')", 1, 10, true)]
    );
    assert_eq!(
        lint("if x != None:", "py", 100),
        vec![one("E711", "comparison to None (use 'is not None')", 1, 6, true)]
    );
}

#[test]
fn python_bool_and_type_comparisons() {
    assert_eq!(
        lint("if x == True:", "py", 100),
        vec![one("E712", "comparison to True/False (use 'if cond:' or 'if not cond:')", 1, 1, false)]
    );
    assert_eq!(
        lint("if type(a) == type(b):", "py", 100),
        vec![one("E721", "do not compare types, use isinstance()", 1, 4, false)]
    );
}

#[test]
fn python_escape_sequences() {
    assert_eq!(
        lint("s = \"\\d+\"", "py", 100),
        vec![one("W605", "invalid escape sequence '\\d'", 1, 6, false)]
    );
    assert_eq!(codes("s = r\"\\d+\"", "py"), Vec::<String>::new());
    assert_eq!(lint("s = \"\\z\\a\"", "py", 100)[0].1, "invalid escape sequence '\\a'");
    assert!(codes("s = \"\\n\"", "py").is_empty());
}

#[test]
fn python_imports() {
    assert_eq!(lint("import os, sys", "py", 100), vec![one("E401", "multiple imports on one line", 1, 1, false)]);
    assert_eq!(
        lint("from os import *", "py", 100),
        vec![one("F403", "wildcard import \u{2014} unable to detect undefined names", 1, 1, false)]
    );
    assert!(codes("from a import b, c", "py").is_empty());
}

#[test]
fn python_except_and_defaults() {
    assert_eq!(lint("    except:", "py", 100), vec![one("E722", "do not use bare 'except'", 1, 5, false)]);
    assert_eq!(lint("def f(a=[]):", "py", 100), vec![one("B006", "mutable default argument", 1, 1, false)]);
    assert_eq!(codes("def f(a={}, b=set()):", "py"), vec!["B006"]);
}

#[test]
fn python_hardcoded_secrets() {
    assert_eq!(
        lint("password=\"hunter2\"", "py", 100),
        vec![one("S105", "hardcoded password/secret detected", 1, 1, false)]
    );
    assert_eq!(lint("  db_secret='x'", "py", 100), vec![one("S105", "hardcoded password/secret detected", 1, 6, false)]);
    assert!(codes("password = \"hunter2\"", "py").is_empty());
    assert!(codes("DB_PASSWORD='x'", "py").is_empty());
    assert!(codes("api_key=get_key()", "py").is_empty());
}

#[test]
fn python_system_print_names() {
    assert_eq!(
        lint("os.system(\"ls\")", "py", 100),
        vec![one("S605", "os.system() call \u{2014} use subprocess instead", 1, 1, false)]
    );
    assert_eq!(
        lint("print \"hi\"", "py", 100),
        vec![one("UP001", "print statement (Python 2 style), use print()", 1, 1, true)]
    );
    assert!(codes("print(\"hi\")", "py").is_empty());
    assert_eq!(codes("x, l = 1, 2", "py"), vec!["E741"]);
    assert_eq!(codes("for (O, i) in x:", "py"), vec!["E741"]);
}

#[test]
fn python_openai_and_keys() {
    assert_eq!(
        lint("import openai; openai.Completion.create()", "py", 100),
        vec![one("AIR001", "deprecated OpenAI API call (use openai>=1.0 client style)", 1, 1, false)]
    );
    assert_eq!(
        lint("key = \"sk-abc\"", "py", 100),
        vec![one("S106", "possible leaked API key in source code", 1, 1, false)]
    );
    assert!(codes("key = sk-abc", "py").is_empty());
}

#[test]
fn python_comments_skip_the_python_rules() {
    assert!(codes("# if x == None:", "py").is_empty());
    assert_eq!(codes("# x == None ", "py"), vec!["W291"]);
}

#[test]
fn rules_run_in_order() {
    assert_eq!(
        lint("x == None  ", "py", 5),
        vec![
            one("E501", "line too long (11 > 5)", 1, 6, false),
            one("W291", "trailing whitespace", 1, 10, true),
            one("E711", "comparison to None (use 'is None')", 1, 3, true),
        ]
    );
}

#[test]
fn rust_rules() {
    assert_eq!(
        lint("let x = y.unwrap();", "rs", 100),
        vec![one("R001", ".unwrap() \u{2014} consider using '?' or expect()", 1, 10, false)]
    );
    assert!(codes("// SAFETY: checked above\nlet x = y.unwrap();", "rs").is_empty());
    assert!(codes("// unwrap: fine\nlet x = y.unwrap();", "rs").is_empty());
    assert_eq!(
        lint("let y = x.clone();", "rs", 100),
        vec![one("R002", ".clone() \u{2014} ensure this is necessary", 1, 10, false)]
    );
    assert_eq!(lint("// HACK", "rs", 100), vec![one("R003", "unresolved TODO/FIXME/HACK comment", 1, 1, false)]);
    assert_eq!(
        lint("    panic!(\"x\")", "rs", 100),
        vec![one("R004", "panic!() call \u{2014} prefer returning Result/Option", 1, 5, false)]
    );
    assert!(codes("#[test] fn f() { panic!(\"x\") }", "rs").is_empty());
    assert_eq!(
        lint("println!(\"hi\");", "rs", 100),
        vec![one("R005", "println!() \u{2014} consider using a proper logger", 1, 1, false)]
    );
    assert_eq!(codes("let k = \"AKIA123\";", "rs"), vec!["S106"]);
    assert!(codes("let k = `AKIA123`;", "rs").is_empty());
}

#[test]
fn script_rules() {
    assert_eq!(lint("var x = 1;", "js", 100), vec![one("NO-VAR", "use 'const' or 'let' instead of 'var'", 1, 1, true)]);
    assert_eq!(lint("  console.error(e);", "ts", 100), vec![one("NO-CONSOLE", "unexpected console statement", 1, 3, false)]);
    assert_eq!(lint("if (a == b) {}", "jsx", 100), vec![one("EQEQEQ", "use '===' instead of '=='", 1, 6, true)]);
    assert!(codes("if (a === b) {}", "js").is_empty());
    assert_eq!(lint("// FIXME", "tsx", 100), vec![one("NO-TODO", "unresolved TODO/FIXME comment", 1, 1, false)]);
    assert_eq!(codes("const k = `sk-1`;", "js"), vec!["S106"]);
}

#[test]
fn other_files_get_only_the_common_rules() {
    assert!(codes("if x == None:\nvar y\nz.unwrap()", "go").is_empty());
    assert!(codes("if x == None:", "").is_empty());
}

#[test]
fn reports_do_not_depend_on_fix_mode() {
    let src = "var a = 1 \nif (a == b) {}\n";
    let plain = lint_content(src.as_bytes(), "js", 100, false);
    let fixed = lint_content(src.as_bytes(), "js", 100, true);
    assert_eq!(plain.reports.len(), fixed.reports.len());
    for (a, b) in plain.reports.iter().zip(fixed.reports.iter()) {
        assert_eq!((a.code, &a.message, a.line, a.col, a.fixable), (b.code, &b.message, b.line, b.col, b.fixable));
    }
}

#[test]
fn reports_are_sound_and_in_line_order() {
    let src = "import os, sys\nif x == None:  \n\n\n\ndef f(a=[]):\n    print \"x\"\n\tkey = 'sk-1'\n";
    let out = lint_content(src.as_bytes(), "py", 10, false);
    let fixable = ["W291", "W293", "E711", "UP001", "NO-VAR", "EQEQEQ"];
    let lines = src.lines().count();
    assert!(!out.reports.is_empty());
    let mut last = 1;
    for r in &out.reports {
        assert_eq!(r.fixable, fixable.contains(&r.code), "{}", r.code);
        assert!(1 <= r.line && r.line <= lines);
        assert!(r.line >= last);
        last = r.line;
    }
}

#[test]
fn fixed_lines_never_exceed_lines() {
    let src = b"a \nb \nc \n";
    let out = lint_content(src, "txt", 100, true);
    assert_eq!(out.fixed_lines, 3);
    assert_eq!(lint_content(src, "txt", 100, false).fixed_lines, 0);
}
