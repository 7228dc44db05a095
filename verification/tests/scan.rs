use blazelint::debug_scan::{line_flags, scan_content};

#[test]
fn scan_reports_and_comments_out_debug_output() {
    colored::control::set_override(false);
    let out = scan_content("print(1)\n# print(2)\nkey = 'sk-1'\n", "py", "a.py", 100, true);
    assert_eq!(
        out.reports,
        vec![
            "a.py:1 Debug output found -> commented out".to_string(),
            "a.py:3 Potential Secret/API Key found!".to_string(),
        ]
    );
    assert_eq!(out.files_fixed, 1);
    assert_eq!(out.rewrite.as_deref(), Some("# print(1)\n# print(2)\nkey = 'sk-1'\n"));
}

#[test]
fn scan_long_lines_and_outdated_apis() {
    colored::control::set_override(false);
    let out = scan_content("abcdef\nOpenAI.ChatCompletion.create()", "txt", "b.txt", 3, false);
    assert_eq!(
        out.reports,
        vec![
            "b.txt:1 Long line (6 chars)".to_string(),
            "b.txt:2 Long line (30 chars)".to_string(),
            "b.txt:2 Deprecated API usage (OpenAI/LangChain)".to_string(),
        ]
    );
    assert_eq!(out.files_fixed, 0);
    assert!(out.rewrite.is_none());
}

#[test]
fn scan_without_fix_rewrites_nothing() {
    colored::control::set_override(false);
    let out = scan_content("console.log(x)\n", "js", "c.js", 100, false);
    assert_eq!(out.reports, vec!["c.js:1 Debug output found -> commented out".to_string()]);
    assert_eq!(out.files_fixed, 0);
    assert!(out.rewrite.is_none());
}

#[test]
fn scan_fix_uses_slashes_outside_python_and_drops_carriage_returns() {
    colored::control::set_override(false);
    let out = scan_content("console.log(1)\r\nx\r\ndbg!(y)", "js", "d.js", 100, true);
    assert_eq!(out.rewrite.as_deref(), Some("// console.log(1)\nx\n// dbg!(y)"));
    assert_eq!(out.files_fixed, 1);
}

#[test]
fn scan_lowercases_with_unicode_rules() {
    colored::control::set_override(false);
    let out = scan_content("id = \"A\u{212A}IA42\"", "py", "e.py", 100, false);
    assert_eq!(out.reports, vec!["e.py:1 Potential Secret/API Key found!".to_string()]);
}

#[test]
fn scan_skips_comments_after_unicode_space() {
    colored::control::set_override(false);
    let out = scan_content("\u{3000}# print(1)\n  // println!(\"x\")\n", "rs", "f.rs", 100, true);
    assert!(out.reports.is_empty());
    assert!(out.rewrite.is_none());
}

#[test]
fn scan_keeps_a_final_lone_carriage_return() {
    let out = scan_content("print(1)\r", "py", "h.py", 100, true);
    assert_eq!(out.rewrite.as_deref(), Some("# print(1)\r"));
}

#[test]
fn line_flags_on_lowercased_text() {
    let f = line_flags("x = dbg!(y) # akia");
    assert!(f.debug_output && f.key_prefix && !f.deprecated_api);
    let g = line_flags("from langchain.llms import openai");
    assert!(!g.debug_output && !g.key_prefix && g.deprecated_api);
    let h = line_flags("PRINT(1) SK-1");
    assert!(!h.debug_output && !h.key_prefix && !h.deprecated_api);
}
