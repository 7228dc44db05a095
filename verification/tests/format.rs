use blazelint::{analyze_and_fix, LintReport};

#[test]
fn messages_without_colour() {
    colored::control::set_override(false);
    let out = analyze_and_fix(b"abcdef\nx = 1 \n", "py", "src/a.py", 3, false);
    assert_eq!(
        out.messages,
        vec![
            "\u{2716} src/a.py:1:4 [E501] line too long (6 > 3)".to_string(),
            "\u{2716} src/a.py:2:4 [E501] line too long (6 > 3)".to_string(),
            "\u{26a0} src/a.py:2:6 [W291] trailing whitespace".to_string(),
        ]
    );
}

#[test]
fn format_with_given_parts() {
    let r = LintReport { code: "S106", message: "m".to_string(), line: 105, col: 1, fixable: false };
    assert_eq!(r.format_with("!", "p", "C"), "! p:105:1 [C] m");
}

#[test]
fn fix_mode_keeps_messages() {
    colored::control::set_override(false);
    let src = b"if x == None:   \nvar = 1\n";
    let plain = analyze_and_fix(src, "py", "m.py", 10, false);
    let fixing = analyze_and_fix(src, "py", "m.py", 10, true);
    assert!(!plain.messages.is_empty());
    assert_eq!(plain.messages, fixing.messages);
    assert_eq!(plain.fixed_lines, 0);
    assert!(fixing.fixed_lines > 0);
}
