//! Every test in this file turns colouring on; the tests of the other files
//! either turn it off or do not look at colours.

use blazelint::debug_scan::scan_content;
use blazelint::LintReport;

#[test]
fn messages_with_colour() {
    colored::control::set_override(true);
    let r = LintReport {
        code: "E501",
        message: "line too long (6 > 3)".to_string(),
        line: 1,
        col: 4,
        fixable: false,
    };
    assert_eq!(
        r.format("f.txt"),
        "\x1b[31m\u{2716}\x1b[0m f.txt:1:4 [\x1b[36mE501\x1b[0m] line too long (6 > 3)"
    );
    let w = LintReport { code: "W291", message: "trailing whitespace".to_string(), line: 12, col: 30, fixable: true };
    assert_eq!(w.format("g.py"), "\x1b[33m\u{26a0}\x1b[0m g.py:12:30 [\x1b[36mW291\x1b[0m] trailing whitespace");
}

#[test]
fn scan_colours() {
    colored::control::set_override(true);
    let out = scan_content("sk-1", "py", "g.py", 100, false);
    assert_eq!(
        out.reports,
        vec!["\x1b[2mg.py\x1b[0m:1 \x1b[1;31mPotential Secret/API Key found!\x1b[0m".to_string()]
    );
}
