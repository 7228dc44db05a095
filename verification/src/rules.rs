use vstd::prelude::*;
use vstd::string::*;

use crate::bytes::{
    ascii_lowercase, contains, find_col, in_class, lead_run, leading_spaces, leading_tabs,
    lemma_trail_run_bound, occurs_at, spec_ascii_lowercase, spec_contains, spec_find_col,
    spec_starts_with, spec_trim, starts_with, trail_run, trailing_run, trim, ByteClass,
};
use crate::language::Language;
use crate::report::{
    decimal, decimal_string, push_if, push_report, report_view, views, LintReport, ReportView,
};

verus! {

/// The bytes of a string.
pub open spec fn lit(s: &str) -> Seq<u8> {
    s.spec_bytes()
}

/// The line ends in a space or a tab.
pub open spec fn has_trailing_blank(l: Seq<u8>) -> bool {
    l.len() > 0 && in_class(l.last(), ByteClass::Blank)
}

/// Whether the line ends in a space or a tab.
pub fn trailing_blank(line: &[u8]) -> (r: bool)
    ensures
        r == has_trailing_blank(line@),
{
    line.len() > 0 && (line[line.len() - 1] == 0x20 || line[line.len() - 1] == 0x09)
}

pub open spec fn too_long_message(len: nat, max: nat) -> Seq<char> {
    "line too long ("@ + decimal(len) + " > "@ + decimal(max) + ")"@
}

/// The rules that apply to every file: line length, trailing whitespace and,
/// for Python and scripts, tab indentation.
pub open spec fn common_rules(
    acc: Seq<ReportView>,
    l: Seq<u8>,
    n: int,
    max: usize,
    lang: Language,
) -> Seq<ReportView> {
    let a1 = push_if(
        acc,
        l.len() > max,
        report_view("E501"@, too_long_message(l.len(), max as nat), n, max + 1, false),
    );
    let a2 = push_if(
        a1,
        has_trailing_blank(l),
        report_view(
            if lead_run(l, ByteClass::Space) > 0 || lead_run(l, ByteClass::Tab) > 0 {
                "W293"@
            } else {
                "W291"@
            },
            "trailing whitespace"@,
            n,
            l.len() - trail_run(l, ByteClass::Blank) + 1,
            true,
        ),
    );
    push_if(
        a2,
        lead_run(l, ByteClass::Tab) > 0 && (lang == Language::Python || lang == Language::Script),
        report_view("W191"@, "indentation contains tabs"@, n, 1, false),
    )
}

/// Applies `common_rules`, appending its reports.
pub fn check_common(
    reports: &mut Vec<LintReport>,
    line: &[u8],
    n: usize,
    max: usize,
    lang: Language,
)
    ensures
        views(final(reports)@) == common_rules(views(old(reports)@), line@, n as int, max, lang),
{
    if line.len() > max {
        let mut m = String::from_str("line too long (");
        let len_s = decimal_string(line.len());
        m.append(len_s.as_str());
        m.append(" > ");
        let max_s = decimal_string(max);
        m.append(max_s.as_str());
        m.append(")");
        push_report(reports, "E501", m, n, max + 1, false);
    }
    if trailing_blank(line) {
        let code = if leading_spaces(line) > 0 || leading_tabs(line) > 0 {
            "W293"
        } else {
            "W291"
        };
        let t = trailing_run(line, ByteClass::Blank);
        proof {
            lemma_trail_run_bound(line@, ByteClass::Blank);
            assert(in_class(line@.last(), ByteClass::Blank));
            assert(trail_run(line@, ByteClass::Blank) >= 1);
        }
        push_report(
            reports,
            code,
            String::from_str("trailing whitespace"),
            n,
            line.len() - t + 1,
            true,
        );
    }
    if leading_tabs(line) > 0 && (lang == Language::Python || lang == Language::Script) {
        push_report(reports, "W191", String::from_str("indentation contains tabs"), n, 1, false);
    }
}

/// The Python rules on blank lines before a line that is not blank.
pub open spec fn blank_line_rules(
    acc: Seq<ReportView>,
    l: Seq<u8>,
    n: int,
    blanks: nat,
) -> Seq<ReportView> {
    let t = spec_trim(l);
    if t.len() == 0 {
        acc
    } else {
        let a1 = push_if(
            acc,
            blanks > 2,
            report_view("E303"@, "too many blank lines ("@ + decimal(blanks) + ")"@, n, 1, false),
        );
        push_if(
            a1,
            (spec_starts_with(t, lit("def ")) || spec_starts_with(t, lit("class ")))
                && lead_run(l, ByteClass::Space) == 0 && blanks < 2 && n > 1,
            report_view(
                "E302"@,
                "expected 2 blank lines before top-level definition"@,
                n,
                1,
                false,
            ),
        )
    }
}

/// Applies `blank_line_rules`, appending its reports.
pub fn check_blank_lines(
    reports: &mut Vec<LintReport>,
    line: &[u8],
    trimmed: &[u8],
    n: usize,
    blanks: usize,
)
    requires
        trimmed@ == spec_trim(line@),
    ensures
        views(final(reports)@) == blank_line_rules(
            views(old(reports)@),
            line@,
            n as int,
            blanks as nat,
        ),
{
    if trimmed.len() == 0 {
        return;
    }
    if blanks > 2 {
        let mut m = String::from_str("too many blank lines (");
        let b = decimal_string(blanks);
        m.append(b.as_str());
        m.append(")");
        push_report(reports, "E303", m, n, 1, false);
    }
    if (starts_with(trimmed, "def ".as_bytes()) || starts_with(trimmed, "class ".as_bytes()))
        && leading_spaces(line) == 0 && blanks < 2 && n > 1 {
        push_report(
            reports,
            "E302",
            String::from_str("expected 2 blank lines before top-level definition"),
            n,
            1,
            false,
        );
    }
}

/// The escape sequences that Python does not define, in the order the rule
/// tries them.
pub open spec fn escape_seq(k: int) -> &'static str {
    if k == 0 {
        "\\a"
    } else if k == 1 {
        "\\b"
    } else if k == 2 {
        "\\c"
    } else if k == 3 {
        "\\d"
    } else if k == 4 {
        "\\e"
    } else if k == 5 {
        "\\g"
    } else if k == 6 {
        "\\h"
    } else if k == 7 {
        "\\i"
    } else if k == 8 {
        "\\j"
    } else if k == 9 {
        "\\k"
    } else if k == 10 {
        "\\l"
    } else if k == 11 {
        "\\m"
    } else if k == 12 {
        "\\o"
    } else if k == 13 {
        "\\p"
    } else if k == 14 {
        "\\q"
    } else if k == 15 {
        "\\w"
    } else if k == 16 {
        "\\y"
    } else {
        "\\z"
    }
}

/// The escape sequence at index `k`.
fn escape_seq_at(k: usize) -> (s: &'static str)
    requires
        k < 18,
    ensures
        s == escape_seq(k as int),
{
    match k {
        0 => "\\a",
        1 => "\\b",
        2 => "\\c",
        3 => "\\d",
        4 => "\\e",
        5 => "\\g",
        6 => "\\h",
        7 => "\\i",
        8 => "\\j",
        9 => "\\k",
        10 => "\\l",
        11 => "\\m",
        12 => "\\o",
        13 => "\\p",
        14 => "\\q",
        15 => "\\w",
        16 => "\\y",
        _ => "\\z",
    }
}

/// The first escape sequence, from index `k` on, that `t` holds.
pub open spec fn first_escape_from(t: Seq<u8>, k: int) -> Option<int>
    decreases 18 - k,
{
    if k >= 18 || k < 0 {
        None
    } else if spec_contains(t, lit(escape_seq(k))) {
        Some(k)
    } else {
        first_escape_from(t, k + 1)
    }
}

/// The index of the first undefined escape sequence that `t` holds.
fn find_escape(t: &[u8]) -> (r: Option<usize>)
    ensures
        r is None <==> first_escape_from(t@, 0) is None,
        r matches Some(j) ==> first_escape_from(t@, 0) == Some(j as int) && j < 18,
{
    let mut k: usize = 0;
    while k < 18
        invariant
            k <= 18,
            first_escape_from(t@, 0) == first_escape_from(t@, k as int),
        decreases 18 - k,
    {
        if contains(t, escape_seq_at(k).as_bytes()) {
            return Some(k);
        }
        k = k + 1;
    }
    None
}

/// The rule on escape sequences: the first undefined escape that the trimmed
/// line holds, unless the line holds a raw string prefix.
pub open spec fn escape_rule(acc: Seq<ReportView>, l: Seq<u8>, t: Seq<u8>, n: int) -> Seq<
    ReportView,
> {
    let raw = spec_contains(t, lit("r\"")) || spec_contains(t, lit("r'"));
    if !raw && first_escape_from(t, 0) is Some {
        let k = first_escape_from(t, 0)->0;
        acc.push(
            report_view(
                "W605"@,
                "invalid escape sequence '"@ + escape_seq(k)@ + "'"@,
                n,
                spec_find_col(l, lit(escape_seq(k))),
                false,
            ),
        )
    } else {
        acc
    }
}

/// The first group of Python rules, in the order they are checked.
pub open spec fn python_rules_first(acc: Seq<ReportView>, l: Seq<u8>, t: Seq<u8>, n: int) -> Seq<
    ReportView,
> {
    let a1 = push_if(
        acc,
        spec_contains(t, lit("== None")),
        report_view(
            "E711"@,
            "comparison to None (use 'is None')"@,
            n,
            spec_find_col(l, lit("== None")),
            true,
        ),
    );
    let a2 = push_if(
        a1,
        spec_contains(t, lit("!= None")),
        report_view(
            "E711"@,
            "comparison to None (use 'is not None')"@,
            n,
            spec_find_col(l, lit("!= None")),
            true,
        ),
    );
    let a3 = push_if(
        a2,
        spec_contains(t, lit("== True")) || spec_contains(t, lit("== False")),
        report_view(
            "E712"@,
            "comparison to True/False (use 'if cond:' or 'if not cond:')"@,
            n,
            1,
            false,
        ),
    );
    let a4 = push_if(
        a3,
        spec_contains(t, lit("type(")) && spec_contains(t, lit(") ==")),
        report_view(
            "E721"@,
            "do not compare types, use isinstance()"@,
            n,
            spec_find_col(l, lit("type(")),
            false,
        ),
    );
    let a5 = escape_rule(a4, l, t, n);
    let a6 = push_if(
        a5,
        spec_starts_with(t, lit("import ")) && spec_contains(t, lit(", ")) && !spec_contains(
            t,
            lit("from "),
        ),
        report_view("E401"@, "multiple imports on one line"@, n, 1, false),
    );
    let a7 = push_if(
        a6,
        spec_starts_with(t, lit("from ")) && spec_contains(t, lit("import *")),
        report_view("F403"@, "wildcard import \u{2014} unable to detect undefined names"@, n, 1, false),
    );
    push_if(
        a7,
        spec_contains(t, lit("except:")),
        report_view(
            "E722"@,
            "do not use bare 'except'"@,
            n,
            spec_find_col(l, lit("except:")),
            false,
        ),
    )
}

/// Applies `escape_rule`, appending its report.
fn check_escape(reports: &mut Vec<LintReport>, line: &[u8], t: &[u8], n: usize)
    ensures
        views(final(reports)@) == escape_rule(views(old(reports)@), line@, t@, n as int),
{
    let raw = contains(t, "r\"".as_bytes()) || contains(t, "r'".as_bytes());
    if !raw {
        match find_escape(t) {
            Some(k) => {
                let seq = escape_seq_at(k);
                let mut m = String::from_str("invalid escape sequence '");
                m.append(seq);
                m.append("'");
                push_report(reports, "W605", m, n, find_col(line, seq.as_bytes()), false);
            },
            None => {},
        }
    }
}

/// Applies `python_rules_first`, appending its reports.
pub fn check_python_first(
    reports: &mut Vec<LintReport>,
    line: &[u8],
    trimmed: &[u8],
    n: usize,
)
    ensures
        views(final(reports)@) == python_rules_first(
            views(old(reports)@),
            line@,
            trimmed@,
            n as int,
        ),
{
    let t = trimmed;
    if contains(t, "== None".as_bytes()) {
        push_report(
            reports,
            "E711",
            String::from_str("comparison to None (use 'is None')"),
            n,
            find_col(line, "== None".as_bytes()),
            true,
        );
    }
    if contains(t, "!= None".as_bytes()) {
        push_report(
            reports,
            "E711",
            String::from_str("comparison to None (use 'is not None')"),
            n,
            find_col(line, "!= None".as_bytes()),
            true,
        );
    }
    if contains(t, "== True".as_bytes()) || contains(t, "== False".as_bytes()) {
        push_report(
            reports,
            "E712",
            String::from_str("comparison to True/False (use 'if cond:' or 'if not cond:')"),
            n,
            1,
            false,
        );
    }
    if contains(t, "type(".as_bytes()) && contains(t, ") ==".as_bytes()) {
        push_report(
            reports,
            "E721",
            String::from_str("do not compare types, use isinstance()"),
            n,
            find_col(line, "type(".as_bytes()),
            false,
        );
    }
    check_escape(reports, line, t, n);
    if starts_with(t, "import ".as_bytes()) && contains(t, ", ".as_bytes()) && !contains(
        t,
        "from ".as_bytes(),
    ) {
        push_report(
            reports,
            "E401",
            String::from_str("multiple imports on one line"),
            n,
            1,
            false,
        );
    }
    if starts_with(t, "from ".as_bytes()) && contains(t, "import *".as_bytes()) {
        push_report(
            reports,
            "F403",
            String::from_str("wildcard import \u{2014} unable to detect undefined names"),
            n,
            1,
            false,
        );
    }
    if contains(t, "except:".as_bytes()) {
        push_report(
            reports,
            "E722",
            String::from_str("do not use bare 'except'"),
            n,
            find_col(line, "except:".as_bytes()),
            false,
        );
    }
}

/// After the first occurrence of `kw` in `l` (or after column 1 when `kw`
/// does not occur there), the rest of the line, trimmed, opens a quote.
pub open spec fn quoted_after(l: Seq<u8>, kw: Seq<u8>) -> bool {
    let a = spec_trim(l.subrange(spec_find_col(l, kw) + kw.len() - 1, l.len() as int));
    spec_starts_with(a, lit("\"")) || spec_starts_with(a, lit("'"))
}

/// The lower-cased line holds `kw`, and a quote follows it.
pub open spec fn secret_hit(l: Seq<u8>, kw: Seq<u8>) -> bool {
    spec_contains(spec_ascii_lowercase(l), kw) && quoted_after(l, kw)
}

/// The column of the first keyword, in the order below, that assigns a
/// quoted literal on the line.
pub open spec fn secret_col(l: Seq<u8>) -> Option<int> {
    if secret_hit(l, lit("password=")) {
        Some(spec_find_col(l, lit("password=")))
    } else if secret_hit(l, lit("secret=")) {
        Some(spec_find_col(l, lit("secret=")))
    } else if secret_hit(l, lit("api_key=")) {
        Some(spec_find_col(l, lit("api_key=")))
    } else if secret_hit(l, lit("passwd=")) {
        Some(spec_find_col(l, lit("passwd=")))
    } else {
        None
    }
}

/// Whether `kw` assigns a quoted literal on the line; `lower` is the line in lower case.
fn secret_at(line: &[u8], lower: &[u8], kw: &[u8]) -> (r: bool)
    requires
        lower@ == spec_ascii_lowercase(line@),
    ensures
        r == secret_hit(line@, kw@),
{
    if !contains(lower, kw) {
        return false;
    }
    let col = find_col(line, kw);
    let len = line.len();
    proof {
        let i = choose|i: int| occurs_at(lower@, kw@, i);
        assert(i + kw@.len() <= lower@.len());
        assert(lower@.len() == line@.len());
        if exists|j: int| occurs_at(line@, kw@, j) {
            assert(occurs_at(line@, kw@, col - 1));
        } else {
            assert(col == 1);
        }
        assert(col - 1 + kw@.len() <= len);
    }
    let start = col - 1 + kw.len();
    let after = &line[start..line.len()];
    let ta = trim(after);
    starts_with(ta, "\"".as_bytes()) || starts_with(ta, "'".as_bytes())
}

/// The column that the secret rule reports, if it reports one.
fn find_secret(line: &[u8]) -> (r: Option<usize>)
    ensures
        r is None <==> secret_col(line@) is None,
        r matches Some(c) ==> secret_col(line@) == Some(c as int),
{
    let lower = ascii_lowercase(line);
    if secret_at(line, lower.as_slice(), "password=".as_bytes()) {
        Some(find_col(line, "password=".as_bytes()))
    } else if secret_at(line, lower.as_slice(), "secret=".as_bytes()) {
        Some(find_col(line, "secret=".as_bytes()))
    } else if secret_at(line, lower.as_slice(), "api_key=".as_bytes()) {
        Some(find_col(line, "api_key=".as_bytes()))
    } else if secret_at(line, lower.as_slice(), "passwd=".as_bytes()) {
        Some(find_col(line, "passwd=".as_bytes()))
    } else {
        None
    }
}

/// The trimmed line holds a prefix of a known kind of API key.
pub open spec fn has_key_marker(t: Seq<u8>) -> bool {
    spec_contains(t, lit("sk-")) || spec_contains(t, lit("AIza")) || spec_contains(t, lit("AKIA"))
}

/// Whether the trimmed line holds the prefix of a known kind of API key.
pub fn key_marker(t: &[u8]) -> (r: bool)
    ensures
        r == has_key_marker(t@),
{
    contains(t, "sk-".as_bytes()) || contains(t, "AIza".as_bytes()) || contains(
        t,
        "AKIA".as_bytes(),
    )
}

/// The trimmed line uses one of the names `l`, `O`, `I` for a variable.
pub open spec fn has_ambiguous_name(t: Seq<u8>) -> bool {
    ||| spec_contains(t, lit(" l ="))
    ||| spec_contains(t, lit(" O ="))
    ||| spec_contains(t, lit(" I ="))
    ||| spec_contains(t, lit("(l,"))
    ||| spec_contains(t, lit("(O,"))
    ||| spec_contains(t, lit("(I,"))
}

/// The second group of Python rules, in the order they are checked.
pub open spec fn python_rules_second(acc: Seq<ReportView>, l: Seq<u8>, t: Seq<u8>, n: int) -> Seq<
    ReportView,
> {
    let b1 = push_if(
        acc,
        spec_starts_with(t, lit("def ")) && (spec_contains(t, lit("=[]")) || spec_contains(
            t,
            lit("={}"),
        ) || spec_contains(t, lit("=set()"))),
        report_view("B006"@, "mutable default argument"@, n, 1, false),
    );
    let b2 = if secret_col(l) is Some {
        b1.push(
            report_view(
                "S105"@,
                "hardcoded password/secret detected"@,
                n,
                secret_col(l)->0,
                false,
            ),
        )
    } else {
        b1
    };
    let b3 = push_if(
        b2,
        spec_contains(t, lit("os.system(")),
        report_view(
            "S605"@,
            "os.system() call \u{2014} use subprocess instead"@,
            n,
            spec_find_col(l, lit("os.system(")),
            false,
        ),
    );
    let b4 = push_if(
        b3,
        spec_starts_with(t, lit("print ")) && !spec_contains(t, lit("print(")),
        report_view("UP001"@, "print statement (Python 2 style), use print()"@, n, 1, true),
    );
    let b5 = push_if(
        b4,
        has_ambiguous_name(t),
        report_view("E741"@, "ambiguous variable name (l, O, or I)"@, n, 1, false),
    );
    let b6 = push_if(
        b5,
        (spec_contains(t, lit("import openai")) || spec_contains(t, lit("from openai"))) && (
        spec_contains(t, lit("openai.Completion")) || spec_contains(
            t,
            lit("openai.ChatCompletion"),
        )),
        report_view(
            "AIR001"@,
            "deprecated OpenAI API call (use openai>=1.0 client style)"@,
            n,
            1,
            false,
        ),
    );
    push_if(
        b6,
        has_key_marker(t) && (spec_contains(t, lit("\"")) || spec_contains(t, lit("'"))),
        report_view("S106"@, "possible leaked API key in source code"@, n, 1, false),
    )
}

/// Applies `python_rules_second`, appending its reports.
pub fn check_python_second(
    reports: &mut Vec<LintReport>,
    line: &[u8],
    trimmed: &[u8],
    n: usize,
)
    ensures
        views(final(reports)@) == python_rules_second(
            views(old(reports)@),
            line@,
            trimmed@,
            n as int,
        ),
{
    let t = trimmed;
    if starts_with(t, "def ".as_bytes()) && (contains(t, "=[]".as_bytes()) || contains(
        t,
        "={}".as_bytes(),
    ) || contains(t, "=set()".as_bytes())) {
        push_report(reports, "B006", String::from_str("mutable default argument"), n, 1, false);
    }
    match find_secret(line) {
        Some(col) => {
            push_report(
                reports,
                "S105",
                String::from_str("hardcoded password/secret detected"),
                n,
                col,
                false,
            );
        },
        None => {},
    }
    if contains(t, "os.system(".as_bytes()) {
        push_report(
            reports,
            "S605",
            String::from_str("os.system() call \u{2014} use subprocess instead"),
            n,
            find_col(line, "os.system(".as_bytes()),
            false,
        );
    }
    if starts_with(t, "print ".as_bytes()) && !contains(t, "print(".as_bytes()) {
        push_report(
            reports,
            "UP001",
            String::from_str("print statement (Python 2 style), use print()"),
            n,
            1,
            true,
        );
    }
    if contains(t, " l =".as_bytes()) || contains(t, " O =".as_bytes()) || contains(
        t,
        " I =".as_bytes(),
    ) || contains(t, "(l,".as_bytes()) || contains(t, "(O,".as_bytes()) || contains(
        t,
        "(I,".as_bytes(),
    ) {
        push_report(
            reports,
            "E741",
            String::from_str("ambiguous variable name (l, O, or I)"),
            n,
            1,
            false,
        );
    }
    if contains(t, "import openai".as_bytes()) || contains(t, "from openai".as_bytes()) {
        if contains(t, "openai.Completion".as_bytes()) || contains(
            t,
            "openai.ChatCompletion".as_bytes(),
        ) {
            push_report(
                reports,
                "AIR001",
                String::from_str("deprecated OpenAI API call (use openai>=1.0 client style)"),
                n,
                1,
                false,
            );
        }
    }
    if key_marker(t) && (contains(t, "\"".as_bytes()) || contains(t, "'".as_bytes())) {
        push_report(
            reports,
            "S106",
            String::from_str("possible leaked API key in source code"),
            n,
            1,
            false,
        );
    }
}

/// The rules for Rust files, in the order they are checked; `prev` is the
/// line before, whole.
pub open spec fn rust_rules(
    acc: Seq<ReportView>,
    l: Seq<u8>,
    t: Seq<u8>,
    prev: Seq<u8>,
    n: int,
) -> Seq<ReportView> {
    let r1 = push_if(
        acc,
        spec_contains(t, lit(".unwrap()")) && !spec_contains(prev, lit("// SAFETY"))
            && !spec_contains(prev, lit("// unwrap")),
        report_view(
            "R001"@,
            ".unwrap() \u{2014} consider using '?' or expect()"@,
            n,
            spec_find_col(l, lit(".unwrap()")),
            false,
        ),
    );
    let r2 = push_if(
        r1,
        spec_contains(t, lit(".clone()")),
        report_view(
            "R002"@,
            ".clone() \u{2014} ensure this is necessary"@,
            n,
            spec_find_col(l, lit(".clone()")),
            false,
        ),
    );
    let r3 = push_if(
        r2,
        spec_contains(t, lit("TODO")) || spec_contains(t, lit("FIXME")) || spec_contains(
            t,
            lit("HACK"),
        ),
        report_view("R003"@, "unresolved TODO/FIXME/HACK comment"@, n, 1, false),
    );
    let r4 = push_if(
        r3,
        spec_contains(t, lit("panic!(")) && !spec_contains(t, lit("#[test]")),
        report_view(
            "R004"@,
            "panic!() call \u{2014} prefer returning Result/Option"@,
            n,
            spec_find_col(l, lit("panic!(")),
            false,
        ),
    );
    let r5 = push_if(
        r4,
        spec_contains(t, lit("println!(")),
        report_view(
            "R005"@,
            "println!() \u{2014} consider using a proper logger"@,
            n,
            spec_find_col(l, lit("println!(")),
            false,
        ),
    );
    push_if(
        r5,
        has_key_marker(t) && (spec_contains(t, lit("\"")) || spec_contains(t, lit("'"))),
        report_view("S106"@, "possible leaked API key in source code"@, n, 1, false),
    )
}

/// Applies `rust_rules`, appending its reports.
pub fn check_rust(
    reports: &mut Vec<LintReport>,
    line: &[u8],
    trimmed: &[u8],
    prev: &[u8],
    n: usize,
)
    ensures
        views(final(reports)@) == rust_rules(
            views(old(reports)@),
            line@,
            trimmed@,
            prev@,
            n as int,
        ),
{
    let t = trimmed;
    if contains(t, ".unwrap()".as_bytes()) && !contains(prev, "// SAFETY".as_bytes()) && !contains(
        prev,
        "// unwrap".as_bytes(),
    ) {
        push_report(
            reports,
            "R001",
            String::from_str(".unwrap() \u{2014} consider using '?' or expect()"),
            n,
            find_col(line, ".unwrap()".as_bytes()),
            false,
        );
    }
    if contains(t, ".clone()".as_bytes()) {
        push_report(
            reports,
            "R002",
            String::from_str(".clone() \u{2014} ensure this is necessary"),
            n,
            find_col(line, ".clone()".as_bytes()),
            false,
        );
    }
    if contains(t, "TODO".as_bytes()) || contains(t, "FIXME".as_bytes()) || contains(
        t,
        "HACK".as_bytes(),
    ) {
        push_report(
            reports,
            "R003",
            String::from_str("unresolved TODO/FIXME/HACK comment"),
            n,
            1,
            false,
        );
    }
    if contains(t, "panic!(".as_bytes()) && !contains(t, "#[test]".as_bytes()) {
        push_report(
            reports,
            "R004",
            String::from_str("panic!() call \u{2014} prefer returning Result/Option"),
            n,
            find_col(line, "panic!(".as_bytes()),
            false,
        );
    }
    if contains(t, "println!(".as_bytes()) {
        push_report(
            reports,
            "R005",
            String::from_str("println!() \u{2014} consider using a proper logger"),
            n,
            find_col(line, "println!(".as_bytes()),
            false,
        );
    }
    if key_marker(t) && (contains(t, "\"".as_bytes()) || contains(t, "'".as_bytes())) {
        push_report(
            reports,
            "S106",
            String::from_str("possible leaked API key in source code"),
            n,
            1,
            false,
        );
    }
}

/// The rules for JavaScript and TypeScript files, in the order they are
/// checked.
pub open spec fn script_rules(acc: Seq<ReportView>, l: Seq<u8>, t: Seq<u8>, n: int) -> Seq<
    ReportView,
> {
    let j1 = push_if(
        acc,
        spec_starts_with(t, lit("var ")),
        report_view("NO-VAR"@, "use 'const' or 'let' instead of 'var'"@, n, 1, true),
    );
    let j2 = push_if(
        j1,
        spec_contains(t, lit("console.log(")) || spec_contains(t, lit("console.error(")),
        report_view(
            "NO-CONSOLE"@,
            "unexpected console statement"@,
            n,
            spec_find_col(l, lit("console.")),
            false,
        ),
    );
    let j3 = push_if(
        j2,
        spec_contains(t, lit(" == ")) && !spec_contains(t, lit(" === ")) && !spec_contains(
            t,
            lit(" !== "),
        ),
        report_view(
            "EQEQEQ"@,
            "use '===' instead of '=='"@,
            n,
            spec_find_col(l, lit(" == ")),
            true,
        ),
    );
    let j4 = push_if(
        j3,
        spec_contains(t, lit("TODO")) || spec_contains(t, lit("FIXME")),
        report_view("NO-TODO"@, "unresolved TODO/FIXME comment"@, n, 1, false),
    );
    push_if(
        j4,
        has_key_marker(t) && (spec_contains(t, lit("\"")) || spec_contains(t, lit("'"))
            || spec_contains(t, lit("`"))),
        report_view("S106"@, "possible leaked API key in source code"@, n, 1, false),
    )
}

/// Applies `script_rules`, appending its reports.
pub fn check_script(reports: &mut Vec<LintReport>, line: &[u8], trimmed: &[u8], n: usize)
    ensures
        views(final(reports)@) == script_rules(
            views(old(reports)@),
            line@,
            trimmed@,
            n as int,
        ),
{
    let t = trimmed;
    if starts_with(t, "var ".as_bytes()) {
        push_report(
            reports,
            "NO-VAR",
            String::from_str("use 'const' or 'let' instead of 'var'"),
            n,
            1,
            true,
        );
    }
    if contains(t, "console.log(".as_bytes()) || contains(t, "console.error(".as_bytes()) {
        push_report(
            reports,
            "NO-CONSOLE",
            String::from_str("unexpected console statement"),
            n,
            find_col(line, "console.".as_bytes()),
            false,
        );
    }
    if contains(t, " == ".as_bytes()) && !contains(t, " === ".as_bytes()) && !contains(
        t,
        " !== ".as_bytes(),
    ) {
        push_report(
            reports,
            "EQEQEQ",
            String::from_str("use '===' instead of '=='"),
            n,
            find_col(line, " == ".as_bytes()),
            true,
        );
    }
    if contains(t, "TODO".as_bytes()) || contains(t, "FIXME".as_bytes()) {
        push_report(
            reports,
            "NO-TODO",
            String::from_str("unresolved TODO/FIXME comment"),
            n,
            1,
            false,
        );
    }
    if key_marker(t) && (contains(t, "\"".as_bytes()) || contains(t, "'".as_bytes()) || contains(
        t,
        "`".as_bytes(),
    )) {
        push_report(
            reports,
            "S106",
            String::from_str("possible leaked API key in source code"),
            n,
            1,
            false,
        );
    }
}

/// Whether the line, trimmed, opens a Python comment.
pub fn is_py_comment(line: &[u8]) -> (r: bool)
    ensures
        r == spec_starts_with(spec_trim(line@), lit("#")),
{
    starts_with(trim(line), "#".as_bytes())
}

/// Everything reported on one line, in the order the checks run: `n` is the
/// line's one-based number, `prev` the line before (empty for the first) and
/// `blanks` the number of blank lines just before it.
pub open spec fn line_reports(
    l: Seq<u8>,
    prev: Seq<u8>,
    n: int,
    blanks: nat,
    max: usize,
    lang: Language,
) -> Seq<ReportView> {
    let t = spec_trim(l);
    let blank = t.len() == 0;
    let a = common_rules(Seq::empty(), l, n, max, lang);
    let b = if lang == Language::Python {
        let b0 = blank_line_rules(a, l, n, blanks);
        if !blank && !spec_starts_with(t, lit("#")) {
            python_rules_second(python_rules_first(b0, l, t, n), l, t, n)
        } else {
            b0
        }
    } else {
        a
    };
    if lang == Language::Rust && !blank {
        rust_rules(b, l, t, prev, n)
    } else if lang == Language::Script && !blank {
        script_rules(b, l, t, n)
    } else {
        b
    }
}

/// Checks one line; the reports come out in the order of `line_reports`.
pub fn check_line(
    line: &[u8],
    prev: &[u8],
    n: usize,
    blanks: usize,
    max: usize,
    lang: Language,
) -> (reports: Vec<LintReport>)
    ensures
        views(reports@) == line_reports(line@, prev@, n as int, blanks as nat, max, lang),
{
    let mut reports: Vec<LintReport> = Vec::new();
    assert(views(reports@) =~= Seq::<ReportView>::empty());
    let trimmed = trim(line);
    let is_blank = trimmed.len() == 0;
    check_common(&mut reports, line, n, max, lang);
    if lang == Language::Python {
        check_blank_lines(&mut reports, line, trimmed, n, blanks);
        if !is_blank && !is_py_comment(line) {
            check_python_first(&mut reports, line, trimmed, n);
            check_python_second(&mut reports, line, trimmed, n);
        }
    }
    if lang == Language::Rust && !is_blank {
        check_rust(&mut reports, line, trimmed, prev, n);
    }
    if lang == Language::Script && !is_blank {
        check_script(&mut reports, line, trimmed, n);
    }
    reports
}

} // verus!
