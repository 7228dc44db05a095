//! What the rules promise, stated from the text of a line alone: which
//! lines get which report, what a fix turns a line into, and what the
//! debug-output scan finds.

use vstd::prelude::*;
use vstd::string::*;

use crate::analyze::{blank_run, line_before, reports_upto, spec_reports};
use crate::bytes::{
    first_match, in_class, is_first_match, lead_run, lemma_first_match_exists, lemma_trail_run_stops, occurs_at,
    spec_contains, spec_find_col, spec_starts_with, spec_trim, trail_run, ByteClass,
};
use crate::debug_scan::{
    byte_len, commented_upto, findings_upto, has_debug_output, has_deprecated_api, has_key_prefix,
    is_comment_line, line_findings, lowercase_of,
    scanned_lines, text_contains, text_findings, text_lines, Finding,
};
use crate::fix::{fix_trailing, fixed_line, line_needs_fix, replace_first};
use crate::laws::law_fixed_line_has_no_trailing_blank;
use crate::rules::has_trailing_blank;
use crate::language::Language;
use crate::lines::spec_split_lines;
use crate::report::{decimal, push_if, report_view, ReportView};
use crate::rules::{
    blank_line_rules, common_rules, line_reports, lit, python_rules_first,
    python_rules_second, rust_rules, script_rules,
};

verus! {

/// Appending keeps what was there, and a rule that fires adds its report.
proof fn lemma_push_if_contains()
    ensures
        forall|acc: Seq<ReportView>, c: bool, r: ReportView, x: ReportView|
            acc.contains(x) ==> #[trigger] push_if(acc, c, r).contains(x),
        forall|acc: Seq<ReportView>, c: bool, r: ReportView|
            c ==> #[trigger] push_if(acc, c, r).contains(r),
        forall|acc: Seq<ReportView>, r: ReportView, x: ReportView|
            acc.contains(x) ==> #[trigger] acc.push(r).contains(x),
{
    assert forall|acc: Seq<ReportView>, c: bool, r: ReportView, x: ReportView|
        acc.contains(x) implies #[trigger] push_if(acc, c, r).contains(x) by {
        let i = choose|i: int| 0 <= i < acc.len() && acc[i] == x;
        assert(push_if(acc, c, r)[i] == x);
    }
    assert forall|acc: Seq<ReportView>, c: bool, r: ReportView|
        c implies #[trigger] push_if(acc, c, r).contains(r) by {
        assert(push_if(acc, c, r)[acc.len() as int] == r);
    }
    assert forall|acc: Seq<ReportView>, r: ReportView, x: ReportView|
        acc.contains(x) implies #[trigger] acc.push(r).contains(x) by {
        let i = choose|i: int| 0 <= i < acc.len() && acc[i] == x;
        assert(acc.push(r)[i] == x);
    }
}

/// The later rule groups keep every report already made on the line.
proof fn lemma_groups_keep(acc: Seq<ReportView>, l: Seq<u8>, t: Seq<u8>, prev: Seq<u8>, n: int, x: ReportView)
    requires
        acc.contains(x),
    ensures
        python_rules_first(acc, l, t, n).contains(x),
        python_rules_second(acc, l, t, n).contains(x),
        rust_rules(acc, l, t, prev, n).contains(x),
        script_rules(acc, l, t, n).contains(x),
{
    lemma_push_if_contains();
}

/// A report made on line `k` of the content is among the content's reports.
proof fn lemma_line_report_reaches(c: Seq<u8>, max: usize, lang: Language, k: int, r: ReportView)
    requires
        0 <= k < spec_split_lines(c).len(),
        line_reports(
            spec_split_lines(c)[k],
            line_before(spec_split_lines(c), k),
            k + 1,
            blank_run(spec_split_lines(c), k),
            max,
            lang,
        ).contains(r),
    ensures
        spec_reports(c, max, lang).contains(r),
{
    let ls = spec_split_lines(c);
    let here = line_reports(ls[k], line_before(ls, k), k + 1, blank_run(ls, k), max, lang);
    let j = choose|j: int| 0 <= j < here.len() && here[j] == r;
    let before = reports_upto(ls, k, max, lang);
    assert(reports_upto(ls, k + 1, max, lang) == before + here);
    assert(reports_upto(ls, k + 1, max, lang)[before.len() + j] == r);
    lemma_reports_grow(ls, k + 1, ls.len() as int, max, lang);
    assert(spec_reports(c, max, lang)[before.len() + j] == r);
}

/// The reports on the first `a` lines begin those on the first `b`.
proof fn lemma_reports_grow(ls: Seq<Seq<u8>>, a: int, b: int, max: usize, lang: Language)
    requires
        0 <= a <= b,
    ensures
        reports_upto(ls, a, max, lang).len() <= reports_upto(ls, b, max, lang).len(),
        forall|i: int|
            0 <= i < reports_upto(ls, a, max, lang).len() ==> reports_upto(ls, b, max, lang)[i]
                == reports_upto(ls, a, max, lang)[i],
    decreases b - a,
{
    if a < b {
        lemma_reports_grow(ls, a, b - 1, max, lang);
    }
}

/// In a Rust file every line that mentions `TODO`, `FIXME` or `HACK` gets
/// the report on unresolved markers, pointing at its first column.
pub proof fn law_rust_marker_reported(c: Seq<u8>, max: usize, k: int)
    requires
        0 <= k < spec_split_lines(c).len(),
        spec_contains(spec_trim(spec_split_lines(c)[k]), lit("TODO")) || spec_contains(
            spec_trim(spec_split_lines(c)[k]),
            lit("FIXME"),
        ) || spec_contains(spec_trim(spec_split_lines(c)[k]), lit("HACK")),
    ensures
        spec_reports(c, max, Language::Rust).contains(
            report_view("R003"@, "unresolved TODO/FIXME/HACK comment"@, k + 1, 1, false),
        ),
{
    let ls = spec_split_lines(c);
    let l = ls[k];
    let t = spec_trim(l);
    assert(t.len() > 0);
    lemma_push_if_contains();
    lemma_line_report_reaches(
        c,
        max,
        Language::Rust,
        k,
        report_view("R003"@, "unresolved TODO/FIXME/HACK comment"@, k + 1, 1, false),
    );
}

/// In a JavaScript or TypeScript file every line that calls `console.log`
/// or `console.error` gets the console report, at the column of its first
/// `console.`.
pub proof fn law_script_console_reported(c: Seq<u8>, max: usize, k: int)
    requires
        0 <= k < spec_split_lines(c).len(),
        spec_contains(spec_trim(spec_split_lines(c)[k]), lit("console.log(")) || spec_contains(
            spec_trim(spec_split_lines(c)[k]),
            lit("console.error("),
        ),
    ensures
        spec_reports(c, max, Language::Script).contains(
            report_view(
                "NO-CONSOLE"@,
                "unexpected console statement"@,
                k + 1,
                spec_find_col(spec_split_lines(c)[k], lit("console.")),
                false,
            ),
        ),
{
    let ls = spec_split_lines(c);
    let l = ls[k];
    let t = spec_trim(l);
    assert(t.len() > 0);
    lemma_push_if_contains();
    lemma_line_report_reaches(
        c,
        max,
        Language::Script,
        k,
        report_view(
            "NO-CONSOLE"@,
            "unexpected console statement"@,
            k + 1,
            spec_find_col(l, lit("console.")),
            false,
        ),
    );
}


/// The literal is a non-empty run of ASCII bytes.
proof fn lemma_lit_len(s: &str)
    requires
        is_ascii(s),
    ensures
        lit(s).len() == s@.len(),
{
    broadcast use vstd::string::is_ascii_spec_bytes;
}

/// In a Python file a line that opens a top-level `def` or `class` (no
/// leading space), after the first line and with fewer than two blank lines
/// just before it, gets the report asking for two blank lines.
pub proof fn law_python_definition_needs_two_blank_lines(c: Seq<u8>, max: usize, k: int)
    requires
        0 < k < spec_split_lines(c).len(),
        spec_starts_with(spec_trim(spec_split_lines(c)[k]), lit("def ")) || spec_starts_with(
            spec_trim(spec_split_lines(c)[k]),
            lit("class "),
        ),
        spec_split_lines(c)[k].len() > 0,
        spec_split_lines(c)[k][0] != 0x20u8,
        !(k >= 2 && spec_trim(spec_split_lines(c)[k - 1]).len() == 0 && spec_trim(
            spec_split_lines(c)[k - 2],
        ).len() == 0),
    ensures
        spec_reports(c, max, Language::Python).contains(
            report_view(
                "E302"@,
                "expected 2 blank lines before top-level definition"@,
                k + 1,
                1,
                false,
            ),
        ),
{
    let ls = spec_split_lines(c);
    let l = ls[k];
    let t = spec_trim(l);
    reveal_strlit("def ");
    reveal_strlit("class ");
    lemma_lit_len("def ");
    lemma_lit_len("class ");
    assert(t.len() > 0);
    assert(lead_run(l, ByteClass::Space) == 0);
    assert(blank_run(ls, k) < 2) by {
        if spec_trim(ls[k - 1]).len() == 0 {
            assert(blank_run(ls, k) == blank_run(ls, k - 1) + 1);
            if k - 1 > 0 {
                assert(spec_trim(ls[k - 2]).len() != 0);
                assert(blank_run(ls, k - 1) == 0);
            }
        }
    }
    let r = report_view(
        "E302"@,
        "expected 2 blank lines before top-level definition"@,
        k + 1,
        1,
        false,
    );
    let blanks = blank_run(ls, k);
    let a = common_rules(Seq::empty(), l, k + 1, max, Language::Python);
    lemma_push_if_contains();
    assert(blank_line_rules(a, l, k + 1, blanks).contains(r));
    lemma_groups_keep(blank_line_rules(a, l, k + 1, blanks), l, t, Seq::empty(), k + 1, r);
    lemma_groups_keep(
        python_rules_first(blank_line_rules(a, l, k + 1, blanks), l, t, k + 1),
        l,
        t,
        Seq::empty(),
        k + 1,
        r,
    );
    lemma_line_report_reaches(c, max, Language::Python, k, r);
}


proof fn lemma_none_literals()
    ensures
        lit("!= None") == seq![0x21u8, 0x3d, 0x20, 0x4e, 0x6f, 0x6e, 0x65],
        lit("== None") == seq![0x3du8, 0x3d, 0x20, 0x4e, 0x6f, 0x6e, 0x65],
        lit("is None") == seq![0x69u8, 0x73, 0x20, 0x4e, 0x6f, 0x6e, 0x65],
        lit("is not None").len() == 11,
{
    broadcast use vstd::string::is_ascii_spec_bytes;

    reveal_strlit("!= None");
    reveal_strlit("== None");
    reveal_strlit("is None");
    reveal_strlit("is not None");
    assert(is_ascii("!= None"));
    assert(is_ascii("== None"));
    assert(is_ascii("is None"));
    assert(is_ascii("is not None"));
    assert(lit("!= None") =~= seq![0x21u8, 0x3d, 0x20, 0x4e, 0x6f, 0x6e, 0x65]);
    assert(lit("== None") =~= seq![0x3du8, 0x3d, 0x20, 0x4e, 0x6f, 0x6e, 0x65]);
    assert(lit("is None") =~= seq![0x69u8, 0x73, 0x20, 0x4e, 0x6f, 0x6e, 0x65]);
}

/// The trailing-whitespace fix keeps a match that ends in a byte other than
/// a space or a tab.
proof fn lemma_fix_trailing_keeps(l: Seq<u8>, pat: Seq<u8>, p: int)
    requires
        occurs_at(l, pat, p),
        pat.len() > 0,
        !in_class(pat.last(), ByteClass::Blank),
    ensures
        occurs_at(fix_trailing(l), pat, p),
{
    if has_trailing_blank(l) {
        lemma_trail_run_stops(l, ByteClass::Blank);
        let e = p + pat.len() - 1;
        assert(l.subrange(p, p + pat.len())[pat.len() - 1] == l[e]);
        assert(!in_class(l[e], ByteClass::Blank));
        assert(fix_trailing(l).subrange(p, p + pat.len()) =~= l.subrange(p, p + pat.len()));
    }
}

/// Replacing the first match of `pat` puts `rep` at its place, and keeps a
/// match of `m` that lies apart from it (moved by the change of length when
/// it lies after).
proof fn lemma_replace_first_effects(x: Seq<u8>, pat: Seq<u8>, rep: Seq<u8>, m: Seq<u8>, q: int)
    requires
        spec_contains(x, pat),
        occurs_at(x, m, q),
    ensures
        is_first_match(x, pat, first_match(x, pat)),
        occurs_at(replace_first(x, pat, rep), rep, first_match(x, pat)),
        first_match(x, pat) + pat.len() <= q ==> occurs_at(
            replace_first(x, pat, rep),
            m,
            q + rep.len() - pat.len(),
        ),
        q + m.len() <= first_match(x, pat) ==> occurs_at(replace_first(x, pat, rep), m, q),
{
    let w = choose|i: int| occurs_at(x, pat, i);
    lemma_first_match_exists(x, pat, w);
    let r = first_match(x, pat);
    let y = replace_first(x, pat, rep);
    assert(y.subrange(r, r + rep.len()) =~= rep);
    if r + pat.len() <= q {
        assert(y.subrange(q + rep.len() - pat.len(), q + rep.len() - pat.len() + m.len())
            =~= x.subrange(q, q + m.len()));
    }
    if q + m.len() <= r {
        assert(y.subrange(q, q + m.len()) =~= x.subrange(q, q + m.len()));
    }
}

/// Replacing the first match changes the length by the difference of the
/// two lengths.
proof fn lemma_replace_first_len(x: Seq<u8>, pat: Seq<u8>, rep: Seq<u8>)
    requires
        spec_contains(x, pat),
    ensures
        replace_first(x, pat, rep).len() == x.len() - pat.len() + rep.len(),
        is_first_match(x, pat, first_match(x, pat)),
{
    let w = choose|i: int| occurs_at(x, pat, i);
    lemma_first_match_exists(x, pat, w);
}

/// In Python fix mode a line that compares with `!= None` comes out holding
/// `is not None`, whether or not an `== None` on it was fixed too.
pub proof fn law_python_fix_rewrites_not_none(l: Seq<u8>)
    requires
        spec_contains(l, lit("!= None")),
    ensures
        spec_contains(fixed_line(l, Language::Python), lit("is not None")),
{
    lemma_none_literals();
    let ne = lit("!= None");
    let eq = lit("== None");
    let isn = lit("is None");
    let isnn = lit("is not None");
    let p = choose|i: int| occurs_at(l, ne, i);
    lemma_fix_trailing_keeps(l, ne, p);
    let a = fix_trailing(l);
    // Replacing the first `== None` keeps the `!= None`: the two cannot
    // overlap, and both are seven bytes long.
    let x = replace_first(a, eq, isn);
    if spec_contains(a, eq) {
        lemma_replace_first_effects(a, eq, isn, ne, p);
        let q = first_match(a, eq);
        assert(a.subrange(q, q + 7) == eq);
        assert(a.subrange(p, p + 7) == ne);
        if q <= p && p < q + 7 {
            assert(a.subrange(p, p + 7)[0] == a.subrange(q, q + 7)[p - q]);
        }
        if p < q && q < p + 7 {
            assert(a.subrange(q, q + 7)[0] == a.subrange(p, p + 7)[q - p]);
            if q == p + 1 {
                assert(a.subrange(q, q + 7)[1] == a.subrange(p, p + 7)[2]);
            }
        }
    }
    assert(occurs_at(x, ne, p));
    // The first `!= None` becomes `is not None`.
    let y = replace_first(x, ne, isnn);
    lemma_replace_first_effects(x, ne, isnn, ne, p);
    assert(fixed_line(l, Language::Python) == y);
}


/// The findings of the first `a` lines begin those of the first `b`.
proof fn lemma_findings_grow(ls: Seq<Seq<char>>, a: int, b: int, max: usize)
    requires
        0 <= a <= b,
    ensures
        findings_upto(ls, a, max).len() <= findings_upto(ls, b, max).len(),
        forall|i: int|
            0 <= i < findings_upto(ls, a, max).len() ==> findings_upto(ls, b, max)[i]
                == findings_upto(ls, a, max)[i],
    decreases b - a,
{
    if a < b {
        lemma_findings_grow(ls, a, b - 1, max);
    }
}

/// The count of commented-out lines never goes down.
proof fn lemma_commented_grow(ls: Seq<Seq<char>>, a: int, b: int)
    requires
        0 <= a <= b,
    ensures
        commented_upto(ls, a, true) <= commented_upto(ls, b, true),
    decreases b - a,
{
    if a < b {
        lemma_commented_grow(ls, a, b - 1);
    }
}

/// The debug-output scan flags every line that is not a comment and whose
/// lower case calls `print(`, `println!`, `dbg!` or `console.log`; fix mode
/// comments that line out (`# ` in Python, `// ` elsewhere), so the file
/// counts as fixed.
pub proof fn law_scan_flags_debug_output(c: Seq<char>, max: usize, k: int, python: bool)
    requires
        0 <= k < text_lines(c).len(),
        !is_comment_line(text_lines(c)[k]),
        text_contains(lowercase_of(text_lines(c)[k]), "print("@) || text_contains(
            lowercase_of(text_lines(c)[k]),
            "println!"@,
        ) || text_contains(lowercase_of(text_lines(c)[k]), "dbg!"@) || text_contains(
            lowercase_of(text_lines(c)[k]),
            "console.log"@,
        ),
    ensures
        text_findings(c, max).contains((k + 1, Finding::DebugOutput)),
        scanned_lines(text_lines(c), true, python)[k] == (if python {
            "# "@
        } else {
            "// "@
        }) + text_lines(c)[k],
        commented_upto(text_lines(c), text_lines(c).len() as int, true) > 0,
{
    let ls = text_lines(c);
    let l = ls[k];
    let lf = line_findings(l, max);
    let first: Seq<Finding> = if byte_len(l) > max {
        seq![Finding::LongLine(byte_len(l))]
    } else {
        Seq::empty()
    };
    assert(lf[first.len() as int] == Finding::DebugOutput);
    let before = findings_upto(ls, k, max);
    let now = findings_upto(ls, k + 1, max);
    assert(now == before + lf.map_values(|f: Finding| (k + 1, f)));
    assert(now[(before.len() + first.len()) as int] == (k + 1, Finding::DebugOutput));
    lemma_findings_grow(ls, k + 1, ls.len() as int, max);
    assert(text_findings(c, max)[(before.len() + first.len()) as int] == (k + 1, Finding::DebugOutput));
    assert(commented_upto(ls, k + 1, true) >= 1);
    lemma_commented_grow(ls, k + 1, ls.len() as int);
}


/// In a Rust file a line gets the report of each rule whose text it holds:
/// `.unwrap()` (unless the line before is a `// SAFETY` or `// unwrap`
/// note), `.clone()`, `panic!(` outside a `#[test]` line and `println!(`,
/// each at the column of its first occurrence.
pub proof fn law_rust_calls_reported(c: Seq<u8>, max: usize, k: int)
    requires
        0 <= k < spec_split_lines(c).len(),
    ensures
        ({
            let l = spec_split_lines(c)[k];
            let t = spec_trim(l);
            let rs = spec_reports(c, max, Language::Rust);
            &&& spec_contains(t, lit(".unwrap()")) && (k == 0 || !spec_contains(
                spec_split_lines(c)[k - 1],
                lit("// SAFETY"),
            ) && !spec_contains(spec_split_lines(c)[k - 1], lit("// unwrap"))) ==> rs.contains(
                report_view(
                    "R001"@,
                    ".unwrap() \u{2014} consider using '?' or expect()"@,
                    k + 1,
                    spec_find_col(l, lit(".unwrap()")),
                    false,
                ),
            )
            &&& spec_contains(t, lit(".clone()")) ==> rs.contains(
                report_view(
                    "R002"@,
                    ".clone() \u{2014} ensure this is necessary"@,
                    k + 1,
                    spec_find_col(l, lit(".clone()")),
                    false,
                ),
            )
            &&& spec_contains(t, lit("panic!(")) && !spec_contains(t, lit("#[test]")) ==> rs.contains(
                report_view(
                    "R004"@,
                    "panic!() call \u{2014} prefer returning Result/Option"@,
                    k + 1,
                    spec_find_col(l, lit("panic!(")),
                    false,
                ),
            )
            &&& spec_contains(t, lit("println!(")) ==> rs.contains(
                report_view(
                    "R005"@,
                    "println!() \u{2014} consider using a proper logger"@,
                    k + 1,
                    spec_find_col(l, lit("println!(")),
                    false,
                ),
            )
        }),
{
    let ls = spec_split_lines(c);
    let l = ls[k];
    let t = spec_trim(l);
    let prev = line_before(ls, k);
    lemma_push_if_contains();
    if t.len() > 0 {
        let a = common_rules(Seq::empty(), l, k + 1, max, Language::Rust);
        assert(line_reports(l, prev, k + 1, blank_run(ls, k), max, Language::Rust) == rust_rules(
            a,
            l,
            t,
            prev,
            k + 1,
        ));
        let r1 = report_view(
            "R001"@,
            ".unwrap() \u{2014} consider using '?' or expect()"@,
            k + 1,
            spec_find_col(l, lit(".unwrap()")),
            false,
        );
        let r2 = report_view(
            "R002"@,
            ".clone() \u{2014} ensure this is necessary"@,
            k + 1,
            spec_find_col(l, lit(".clone()")),
            false,
        );
        let r4 = report_view(
            "R004"@,
            "panic!() call \u{2014} prefer returning Result/Option"@,
            k + 1,
            spec_find_col(l, lit("panic!(")),
            false,
        );
        let r5 = report_view(
            "R005"@,
            "println!() \u{2014} consider using a proper logger"@,
            k + 1,
            spec_find_col(l, lit("println!(")),
            false,
        );
        if k == 0 {
            assert(!spec_contains(prev, lit("// SAFETY")));
            assert(!spec_contains(prev, lit("// unwrap")));
        }
        if spec_contains(t, lit(".unwrap()")) && !spec_contains(prev, lit("// SAFETY"))
            && !spec_contains(prev, lit("// unwrap")) {
            lemma_line_report_reaches(c, max, Language::Rust, k, r1);
        }
        if spec_contains(t, lit(".clone()")) {
            lemma_line_report_reaches(c, max, Language::Rust, k, r2);
        }
        if spec_contains(t, lit("panic!(")) && !spec_contains(t, lit("#[test]")) {
            lemma_line_report_reaches(c, max, Language::Rust, k, r4);
        }
        if spec_contains(t, lit("println!(")) {
            lemma_line_report_reaches(c, max, Language::Rust, k, r5);
        }
    }
}

/// In a JavaScript or TypeScript file a line that begins with `var ` gets
/// the fixable report on `var`; one that compares with ` == ` (and with
/// neither ` === ` nor ` !== `) gets the fixable report on `==` at its
/// first ` == `; one that mentions `TODO` or `FIXME` gets the report on
/// unresolved markers.
pub proof fn law_script_rules_reported(c: Seq<u8>, max: usize, k: int)
    requires
        0 <= k < spec_split_lines(c).len(),
    ensures
        ({
            let l = spec_split_lines(c)[k];
            let t = spec_trim(l);
            let rs = spec_reports(c, max, Language::Script);
            &&& spec_starts_with(t, lit("var ")) ==> rs.contains(
                report_view("NO-VAR"@, "use 'const' or 'let' instead of 'var'"@, k + 1, 1, true),
            )
            &&& spec_contains(t, lit(" == ")) && !spec_contains(t, lit(" === ")) && !spec_contains(
                t,
                lit(" !== "),
            ) ==> rs.contains(
                report_view(
                    "EQEQEQ"@,
                    "use '===' instead of '=='"@,
                    k + 1,
                    spec_find_col(l, lit(" == ")),
                    true,
                ),
            )
            &&& spec_contains(t, lit("TODO")) || spec_contains(t, lit("FIXME")) ==> rs.contains(
                report_view("NO-TODO"@, "unresolved TODO/FIXME comment"@, k + 1, 1, false),
            )
        }),
{
    let ls = spec_split_lines(c);
    let l = ls[k];
    let t = spec_trim(l);
    reveal_strlit("var ");
    lemma_lit_len("var ");
    lemma_push_if_contains();
    if t.len() > 0 {
        let v = report_view("NO-VAR"@, "use 'const' or 'let' instead of 'var'"@, k + 1, 1, true);
        let e = report_view(
            "EQEQEQ"@,
            "use '===' instead of '=='"@,
            k + 1,
            spec_find_col(l, lit(" == ")),
            true,
        );
        let d = report_view("NO-TODO"@, "unresolved TODO/FIXME comment"@, k + 1, 1, false);
        if spec_starts_with(t, lit("var ")) {
            lemma_line_report_reaches(c, max, Language::Script, k, v);
        }
        if spec_contains(t, lit(" == ")) && !spec_contains(t, lit(" === ")) && !spec_contains(
            t,
            lit(" !== "),
        ) {
            lemma_line_report_reaches(c, max, Language::Script, k, e);
        }
        if spec_contains(t, lit("TODO")) || spec_contains(t, lit("FIXME")) {
            lemma_line_report_reaches(c, max, Language::Script, k, d);
        }
    }
}

/// In a Python file a line that is not blank, after three or more blank
/// lines, gets the report on too many blank lines, which gives their number.
pub proof fn law_python_too_many_blank_lines(c: Seq<u8>, max: usize, k: int)
    requires
        3 <= k < spec_split_lines(c).len(),
        spec_trim(spec_split_lines(c)[k]).len() > 0,
        spec_trim(spec_split_lines(c)[k - 1]).len() == 0,
        spec_trim(spec_split_lines(c)[k - 2]).len() == 0,
        spec_trim(spec_split_lines(c)[k - 3]).len() == 0,
    ensures
        blank_run(spec_split_lines(c), k) >= 3,
        spec_reports(c, max, Language::Python).contains(
            report_view(
                "E303"@,
                "too many blank lines ("@ + decimal(blank_run(spec_split_lines(c), k)) + ")"@,
                k + 1,
                1,
                false,
            ),
        ),
{
    let ls = spec_split_lines(c);
    let l = ls[k];
    let t = spec_trim(l);
    let blanks = blank_run(ls, k);
    assert(blank_run(ls, k - 2) >= 1);
    assert(blank_run(ls, k - 1) >= 2);
    let r = report_view(
        "E303"@,
        "too many blank lines ("@ + decimal(blanks) + ")"@,
        k + 1,
        1,
        false,
    );
    let a = common_rules(Seq::empty(), l, k + 1, max, Language::Python);
    lemma_push_if_contains();
    assert(blank_line_rules(a, l, k + 1, blanks).contains(r));
    lemma_groups_keep(blank_line_rules(a, l, k + 1, blanks), l, t, Seq::empty(), k + 1, r);
    lemma_groups_keep(
        python_rules_first(blank_line_rules(a, l, k + 1, blanks), l, t, k + 1),
        l,
        t,
        Seq::empty(),
        k + 1,
        r,
    );
    lemma_line_report_reaches(c, max, Language::Python, k, r);
}


/// The checks that follow the common ones keep their reports.
proof fn lemma_line_keeps_common(
    l: Seq<u8>,
    prev: Seq<u8>,
    n: int,
    blanks: nat,
    max: usize,
    lang: Language,
    x: ReportView,
)
    requires
        common_rules(Seq::empty(), l, n, max, lang).contains(x),
    ensures
        line_reports(l, prev, n, blanks, max, lang).contains(x),
{
    let t = spec_trim(l);
    let a = common_rules(Seq::empty(), l, n, max, lang);
    lemma_push_if_contains();
    let b = if lang == Language::Python {
        let b0 = blank_line_rules(a, l, n, blanks);
        assert(b0.contains(x));
        lemma_groups_keep(b0, l, t, prev, n, x);
        lemma_groups_keep(python_rules_first(b0, l, t, n), l, t, prev, n, x);
        if !(t.len() == 0) && !spec_starts_with(t, lit("#")) {
            python_rules_second(python_rules_first(b0, l, t, n), l, t, n)
        } else {
            b0
        }
    } else {
        a
    };
    assert(b.contains(x));
    lemma_groups_keep(b, l, t, prev, n, x);
}

/// Every file gets, on each line: the report on length when the line is
/// longer than the limit, pointing just past the limit; the fixable report
/// on trailing whitespace when it ends in a space or a tab, pointing at the
/// first of the trailing blanks (`W293` when the line is indented, `W291`
/// otherwise); and, in Python and scripts, the report on tab indentation when
/// it begins with a tab.
pub proof fn law_common_rules_reported(c: Seq<u8>, max: usize, lang: Language, k: int)
    requires
        0 <= k < spec_split_lines(c).len(),
    ensures
        ({
            let l = spec_split_lines(c)[k];
            let rs = spec_reports(c, max, lang);
            &&& l.len() > max ==> rs.contains(
                report_view(
                    "E501"@,
                    "line too long ("@ + decimal(l.len()) + " > "@ + decimal(max as nat) + ")"@,
                    k + 1,
                    max + 1,
                    false,
                ),
            )
            &&& l.len() > 0 && (l.last() == 0x20u8 || l.last() == 0x09u8) ==> rs.contains(
                report_view(
                    if l[0] == 0x20u8 || l[0] == 0x09u8 {
                        "W293"@
                    } else {
                        "W291"@
                    },
                    "trailing whitespace"@,
                    k + 1,
                    l.len() - trail_run(l, ByteClass::Blank) + 1,
                    true,
                ),
            )
            &&& (lang == Language::Python || lang == Language::Script) && l.len() > 0 && l[0]
                == 0x09u8 ==> rs.contains(
                report_view("W191"@, "indentation contains tabs"@, k + 1, 1, false),
            )
        }),
{
    let ls = spec_split_lines(c);
    let l = ls[k];
    let n = k + 1;
    let prev = line_before(ls, k);
    let blanks = blank_run(ls, k);
    let a = common_rules(Seq::empty(), l, n, max, lang);
    lemma_push_if_contains();
    if l.len() > max {
        let r = report_view(
            "E501"@,
            "line too long ("@ + decimal(l.len()) + " > "@ + decimal(max as nat) + ")"@,
            n,
            max + 1,
            false,
        );
        assert(a.contains(r));
        lemma_line_keeps_common(l, prev, n, blanks, max, lang, r);
        lemma_line_report_reaches(c, max, lang, k, r);
    }
    if l.len() > 0 && (l.last() == 0x20u8 || l.last() == 0x09u8) {
        let r = report_view(
            if l[0] == 0x20u8 || l[0] == 0x09u8 {
                "W293"@
            } else {
                "W291"@
            },
            "trailing whitespace"@,
            n,
            l.len() - trail_run(l, ByteClass::Blank) + 1,
            true,
        );
        assert((lead_run(l, ByteClass::Space) > 0 || lead_run(l, ByteClass::Tab) > 0) == (l[0]
            == 0x20u8 || l[0] == 0x09u8));
        assert(a.contains(r));
        lemma_line_keeps_common(l, prev, n, blanks, max, lang, r);
        lemma_line_report_reaches(c, max, lang, k, r);
    }
    if (lang == Language::Python || lang == Language::Script) && l.len() > 0 && l[0] == 0x09u8 {
        let r = report_view("W191"@, "indentation contains tabs"@, n, 1, false);
        assert(lead_run(l, ByteClass::Tab) > 0);
        assert(a.contains(r));
        lemma_line_keeps_common(l, prev, n, blanks, max, lang, r);
        lemma_line_report_reaches(c, max, lang, k, r);
    }
}


/// A finding on line `k` of the text is among the text's findings, numbered
/// `k + 1`.
proof fn lemma_line_finding_reaches(c: Seq<char>, max: usize, k: int, j: int)
    requires
        0 <= k < text_lines(c).len(),
        0 <= j < line_findings(text_lines(c)[k], max).len(),
    ensures
        text_findings(c, max).contains((k + 1, line_findings(text_lines(c)[k], max)[j])),
{
    let ls = text_lines(c);
    let lf = line_findings(ls[k], max);
    let before = findings_upto(ls, k, max);
    let now = findings_upto(ls, k + 1, max);
    assert(now == before + lf.map_values(|f: Finding| (k + 1, f)));
    assert(now[before.len() + j] == (k + 1, lf[j]));
    lemma_findings_grow(ls, k + 1, ls.len() as int, max);
    assert(text_findings(c, max)[before.len() + j] == (k + 1, lf[j]));
}

/// The debug-output scan reports a line longer than the limit (in bytes)
/// with its length, comment or not; on a line that is not a comment it
/// reports the prefix of an API key (`sk-`, `akia`, in any case) and the
/// outdated OpenAI and LangChain APIs.
pub proof fn law_scan_flags_lines(c: Seq<char>, max: usize, k: int)
    requires
        0 <= k < text_lines(c).len(),
    ensures
        ({
            let l = text_lines(c)[k];
            let lower = lowercase_of(l);
            let fs = text_findings(c, max);
            &&& byte_len(l) > max ==> fs.contains((k + 1, Finding::LongLine(byte_len(l))))
            &&& !is_comment_line(l) && (text_contains(lower, "sk-"@) || text_contains(
                lower,
                "akia"@,
            )) ==> fs.contains((k + 1, Finding::SecretKey))
            &&& !is_comment_line(l) && (text_contains(lower, "openai.chatcompletion"@)
                || text_contains(lower, "langchain.llms"@)) ==> fs.contains(
                (k + 1, Finding::DeprecatedApi),
            )
        }),
{
    let ls = text_lines(c);
    let l = ls[k];
    let lower = lowercase_of(l);
    let lf = line_findings(l, max);
    let first: Seq<Finding> = if byte_len(l) > max {
        seq![Finding::LongLine(byte_len(l))]
    } else {
        Seq::empty()
    };
    if byte_len(l) > max {
        assert(lf[0] == Finding::LongLine(byte_len(l)));
        lemma_line_finding_reaches(c, max, k, 0);
    }
    if !is_comment_line(l) {
        let d: Seq<Finding> = if has_debug_output(lower) {
            seq![Finding::DebugOutput]
        } else {
            Seq::empty()
        };
        let s: Seq<Finding> = if has_key_prefix(lower) {
            seq![Finding::SecretKey]
        } else {
            Seq::empty()
        };
        if has_key_prefix(lower) {
            assert(lf[(first.len() + d.len()) as int] == Finding::SecretKey);
            lemma_line_finding_reaches(c, max, k, (first.len() + d.len()) as int);
        }
        if has_deprecated_api(lower) {
            assert(lf[(first.len() + d.len() + s.len()) as int] == Finding::DeprecatedApi);
            lemma_line_finding_reaches(c, max, k, (first.len() + d.len() + s.len()) as int);
        }
    }
}


/// In Python fix mode a line that compares with `== None` comes out holding
/// `is None`.
pub proof fn law_python_fix_rewrites_none(l: Seq<u8>)
    requires
        spec_contains(l, lit("== None")),
    ensures
        spec_contains(fixed_line(l, Language::Python), lit("is None")),
{
    lemma_none_literals();
    let ne = lit("!= None");
    let eq = lit("== None");
    let isn = lit("is None");
    let isnn = lit("is not None");
    let p = choose|i: int| occurs_at(l, eq, i);
    lemma_fix_trailing_keeps(l, eq, p);
    let a = fix_trailing(l);
    // The first `== None` becomes `is None`.
    lemma_replace_first_effects(a, eq, isn, eq, p);
    let q = first_match(a, eq);
    let x = replace_first(a, eq, isn);
    let y = replace_first(x, ne, isnn);
    if spec_contains(x, ne) {
        // The first `!= None` lies apart from that `is None`.
        let w = choose|i: int| occurs_at(x, ne, i);
        lemma_first_match_exists(x, ne, w);
        let r = first_match(x, ne);
        assert(x.subrange(q, q + 7) == isn);
        assert(x.subrange(r, r + 7) == ne);
        if r <= q && q < r + 7 {
            assert(x.subrange(q, q + 7)[0] == x.subrange(r, r + 7)[q - r]);
        }
        if q < r && r < q + 7 {
            assert(x.subrange(r, r + 7)[0] == x.subrange(q, q + 7)[r - q]);
        }
        lemma_replace_first_effects(x, ne, isnn, isn, q);
    }
    assert(fixed_line(l, Language::Python) == y);
}

/// In script fix mode a line that begins with `var ` (and does not end in a
/// blank) begins with `let ` instead, the rest unchanged.
pub proof fn law_script_fix_rewrites_var(l: Seq<u8>)
    requires
        spec_starts_with(l, lit("var ")),
        l.last() != 0x20u8,
        l.last() != 0x09u8,
    ensures
        fixed_line(l, Language::Script) == lit("let ") + l.subrange(4, l.len() as int),
{
    reveal_strlit("var ");
    lemma_lit_len("var ");
    assert(l.len() >= 4);
    assert(fix_trailing(l) == l);
}


/// A report of a grown list is one it had, or the one a firing rule added.
proof fn lemma_push_if_only()
    ensures
        forall|acc: Seq<ReportView>, c: bool, r: ReportView, x: ReportView|
            #[trigger] push_if(acc, c, r).contains(x) ==> acc.contains(x) || (c && x == r),
        forall|acc: Seq<ReportView>, r: ReportView, x: ReportView|
            #[trigger] acc.push(r).contains(x) ==> acc.contains(x) || x == r,
        forall|x: ReportView| !Seq::<ReportView>::empty().contains(x),
{
    assert forall|acc: Seq<ReportView>, c: bool, r: ReportView, x: ReportView|
        #[trigger] push_if(acc, c, r).contains(x) implies acc.contains(x) || (c && x == r) by {
        let s = push_if(acc, c, r);
        let i = choose|i: int| 0 <= i < s.len() && s[i] == x;
        if i < acc.len() {
            assert(acc[i] == x);
        }
    }
    assert forall|acc: Seq<ReportView>, r: ReportView, x: ReportView|
        #[trigger] acc.push(r).contains(x) implies acc.contains(x) || x == r by {
        let s = acc.push(r);
        let i = choose|i: int| 0 <= i < s.len() && s[i] == x;
        if i < acc.len() {
            assert(acc[i] == x);
        }
    }
}

/// Each report on the content was made on one of its lines.
proof fn lemma_report_origin(ls: Seq<Seq<u8>>, m: int, max: usize, lang: Language, x: ReportView)
    requires
        0 <= m <= ls.len(),
        reports_upto(ls, m, max, lang).contains(x),
    ensures
        exists|k: int|
            0 <= k < m && #[trigger] line_reports(
                ls[k],
                line_before(ls, k),
                k + 1,
                blank_run(ls, k),
                max,
                lang,
            ).contains(x),
    decreases m,
{
    if m > 0 {
        let before = reports_upto(ls, m - 1, max, lang);
        let here = line_reports(
            ls[m - 1],
            line_before(ls, m - 1),
            m,
            blank_run(ls, m - 1),
            max,
            lang,
        );
        assert(reports_upto(ls, m, max, lang) == before + here);
        let i = choose|i: int|
            0 <= i < reports_upto(ls, m, max, lang).len() && reports_upto(ls, m, max, lang)[i]
                == x;
        if i < before.len() {
            assert(before[i] == x);
            lemma_report_origin(ls, m - 1, max, lang, x);
        } else {
            assert(here[i - before.len()] == x);
            assert(line_reports(
                ls[m - 1],
                line_before(ls, m - 1),
                (m - 1) + 1,
                blank_run(ls, m - 1),
                max,
                lang,
            ).contains(x));
        }
    }
}

/// In a Rust file the report on unresolved markers is made only on a line
/// that mentions `TODO`, `FIXME` or `HACK`, and always with the same text at
/// the first column of that line.
pub proof fn law_rust_marker_report_only_on_markers(c: Seq<u8>, max: usize, x: ReportView)
    requires
        spec_reports(c, max, Language::Rust).contains(x),
        x.code == "R003"@,
    ensures
        exists|k: int|
            0 <= k < spec_split_lines(c).len() && x == report_view(
                "R003"@,
                "unresolved TODO/FIXME/HACK comment"@,
                k + 1,
                1,
                false,
            ) && (spec_contains(#[trigger] spec_trim(spec_split_lines(c)[k]), lit("TODO"))
                || spec_contains(spec_trim(spec_split_lines(c)[k]), lit("FIXME"))
                || spec_contains(spec_trim(spec_split_lines(c)[k]), lit("HACK"))),
{
    let ls = spec_split_lines(c);
    lemma_report_origin(ls, ls.len() as int, max, Language::Rust, x);
    let k = choose|k: int|
        0 <= k < ls.len() && #[trigger] line_reports(
            ls[k],
            line_before(ls, k),
            k + 1,
            blank_run(ls, k),
            max,
            Language::Rust,
        ).contains(x);
    reveal_strlit("R003");
    reveal_strlit("R001");
    reveal_strlit("R002");
    reveal_strlit("R004");
    reveal_strlit("R005");
    reveal_strlit("S106");
    reveal_strlit("E501");
    reveal_strlit("W291");
    reveal_strlit("W293");
    reveal_strlit("W191");
    assert(x.code[0] == 'R' && x.code[3] == '3');
    lemma_push_if_only();
    let t = spec_trim(ls[k]);
    assert(spec_contains(t, lit("TODO")) || spec_contains(t, lit("FIXME")) || spec_contains(
        t,
        lit("HACK"),
    ));
    assert(spec_trim(ls[k]) == t);
}

/// In a JavaScript or TypeScript file the console report is made only on a
/// line that calls `console.log` or `console.error`, at the column of its
/// first `console.`.
pub proof fn law_script_console_report_only_on_calls(c: Seq<u8>, max: usize, x: ReportView)
    requires
        spec_reports(c, max, Language::Script).contains(x),
        x.code == "NO-CONSOLE"@,
    ensures
        exists|k: int|
            0 <= k < spec_split_lines(c).len() && x == report_view(
                "NO-CONSOLE"@,
                "unexpected console statement"@,
                k + 1,
                spec_find_col(spec_split_lines(c)[k], lit("console.")),
                false,
            ) && (spec_contains(#[trigger] spec_trim(spec_split_lines(c)[k]), lit("console.log("))
                || spec_contains(spec_trim(spec_split_lines(c)[k]), lit("console.error("))),
{
    let ls = spec_split_lines(c);
    lemma_report_origin(ls, ls.len() as int, max, Language::Script, x);
    let k = choose|k: int|
        0 <= k < ls.len() && #[trigger] line_reports(
            ls[k],
            line_before(ls, k),
            k + 1,
            blank_run(ls, k),
            max,
            Language::Script,
        ).contains(x);
    reveal_strlit("NO-CONSOLE");
    reveal_strlit("NO-VAR");
    reveal_strlit("EQEQEQ");
    reveal_strlit("NO-TODO");
    reveal_strlit("S106");
    reveal_strlit("E501");
    reveal_strlit("W291");
    reveal_strlit("W293");
    reveal_strlit("W191");
    assert(x.code.len() == 10);
    lemma_push_if_only();
    let t = spec_trim(ls[k]);
    assert(spec_contains(t, lit("console.log(")) || spec_contains(t, lit("console.error(")));
    assert(spec_trim(ls[k]) == t);
}



proof fn lemma_common_no_e302(l: Seq<u8>, n: int, max: usize, lang: Language, x: ReportView)
    requires
        x.code == "E302"@,
    ensures
        !common_rules(Seq::empty(), l, n, max, lang).contains(x),
{
    reveal_strlit("E302");
    reveal_strlit("E501");
    reveal_strlit("W291");
    reveal_strlit("W293");
    reveal_strlit("W191");
    assert(x.code.len() == 4 && x.code[0] == 'E' && x.code[1] == '3' && x.code[2] == '0'
        && x.code[3] == '2');
    lemma_push_if_only();
}

proof fn lemma_python_groups_no_e302(acc: Seq<ReportView>, l: Seq<u8>, t: Seq<u8>, n: int, x: ReportView)
    requires
        x.code == "E302"@,
    ensures
        python_rules_first(acc, l, t, n).contains(x) ==> acc.contains(x),
        python_rules_second(acc, l, t, n).contains(x) ==> acc.contains(x),
{
    reveal_strlit("E302");
    reveal_strlit("E711");
    reveal_strlit("E712");
    reveal_strlit("E721");
    reveal_strlit("W605");
    reveal_strlit("E401");
    reveal_strlit("F403");
    reveal_strlit("E722");
    reveal_strlit("B006");
    reveal_strlit("S105");
    reveal_strlit("S605");
    reveal_strlit("UP001");
    reveal_strlit("E741");
    reveal_strlit("AIR001");
    reveal_strlit("S106");
    assert(x.code.len() == 4 && x.code[0] == 'E' && x.code[1] == '3' && x.code[2] == '0'
        && x.code[3] == '2');
    lemma_push_if_only();
}

/// In a Python file the report asking for two blank lines is made only on a
/// line, not the first, that opens a `def` or `class` with no leading space
/// and has fewer than two blank lines just before it.
pub proof fn law_python_definition_report_only_when_crowded(
    c: Seq<u8>,
    max: usize,
    x: ReportView,
)
    requires
        spec_reports(c, max, Language::Python).contains(x),
        x.code == "E302"@,
    ensures
        exists|k: int|
            0 < k < spec_split_lines(c).len() && x == report_view(
                "E302"@,
                "expected 2 blank lines before top-level definition"@,
                k + 1,
                1,
                false,
            ) && (spec_starts_with(#[trigger] spec_trim(spec_split_lines(c)[k]), lit("def "))
                || spec_starts_with(spec_trim(spec_split_lines(c)[k]), lit("class ")))
                && spec_split_lines(c)[k].len() > 0 && spec_split_lines(c)[k][0] != 0x20u8 && !(k
                >= 2 && spec_trim(spec_split_lines(c)[k - 1]).len() == 0 && spec_trim(
                spec_split_lines(c)[k - 2],
            ).len() == 0),
{
    let ls = spec_split_lines(c);
    lemma_report_origin(ls, ls.len() as int, max, Language::Python, x);
    let k = choose|k: int|
        0 <= k < ls.len() && #[trigger] line_reports(
            ls[k],
            line_before(ls, k),
            k + 1,
            blank_run(ls, k),
            max,
            Language::Python,
        ).contains(x);
    let l = ls[k];
    let t = spec_trim(l);
    let n = k + 1;
    let blanks = blank_run(ls, k);
    let a = common_rules(Seq::empty(), l, n, max, Language::Python);
    let b0 = blank_line_rules(a, l, n, blanks);
    lemma_common_no_e302(l, n, max, Language::Python, x);
    lemma_python_groups_no_e302(b0, l, t, n, x);
    lemma_python_groups_no_e302(python_rules_first(b0, l, t, n), l, t, n, x);
    assert(b0.contains(x));
    reveal_strlit("E302");
    reveal_strlit("E303");
    assert(x.code.len() == 4 && x.code[0] == 'E' && x.code[1] == '3' && x.code[2] == '0'
        && x.code[3] == '2');
    lemma_push_if_only();
    assert(t.len() > 0);
    assert(x == report_view(
        "E302"@,
        "expected 2 blank lines before top-level definition"@,
        n,
        1,
        false,
    ));
    assert(lead_run(l, ByteClass::Space) == 0 && blanks < 2 && n > 1);
    assert(l.len() > 0);
    if k >= 2 && spec_trim(ls[k - 1]).len() == 0 && spec_trim(ls[k - 2]).len() == 0 {
        assert(blank_run(ls, k - 1) >= 1);
        assert(false);
    }
    assert(spec_trim(ls[k]) == t);
}


/// Each finding of the text was made on one of its lines, and carries that
/// line's number.
proof fn lemma_finding_origin(ls: Seq<Seq<char>>, m: int, max: usize, p: (int, Finding))
    requires
        0 <= m <= ls.len(),
        findings_upto(ls, m, max).contains(p),
    ensures
        exists|k: int|
            0 <= k < m && p.0 == k + 1 && #[trigger] line_findings(ls[k], max).contains(p.1),
    decreases m,
{
    if m > 0 {
        let before = findings_upto(ls, m - 1, max);
        let lf = line_findings(ls[m - 1], max);
        let here = lf.map_values(|f: Finding| (m, f));
        assert(findings_upto(ls, m, max) == before + here);
        let i = choose|i: int|
            0 <= i < findings_upto(ls, m, max).len() && findings_upto(ls, m, max)[i] == p;
        if i < before.len() {
            assert(before[i] == p);
            lemma_finding_origin(ls, m - 1, max, p);
        } else {
            let j = i - before.len();
            assert(here[j] == p);
            assert(lf[j] == p.1);
            assert(line_findings(ls[(m - 1) as int], max).contains(p.1));
        }
    }
}

/// The debug-output scan reports debug output only on a line that is not a
/// comment and whose lower case calls `print(`, `println!`, `dbg!` or
/// `console.log`.
pub proof fn law_scan_debug_output_only_on_calls(c: Seq<char>, max: usize, n: int)
    requires
        text_findings(c, max).contains((n, Finding::DebugOutput)),
    ensures
        1 <= n <= text_lines(c).len(),
        !is_comment_line(text_lines(c)[n - 1]),
        text_contains(lowercase_of(text_lines(c)[n - 1]), "print("@) || text_contains(
            lowercase_of(text_lines(c)[n - 1]),
            "println!"@,
        ) || text_contains(lowercase_of(text_lines(c)[n - 1]), "dbg!"@) || text_contains(
            lowercase_of(text_lines(c)[n - 1]),
            "console.log"@,
        ),
{
    let ls = text_lines(c);
    lemma_finding_origin(ls, ls.len() as int, max, (n, Finding::DebugOutput));
    let k = n - 1;
    let l = ls[k];
    let lower = lowercase_of(l);
    let lf = line_findings(l, max);
    assert(lf.contains(Finding::DebugOutput));
    let i = choose|i: int| 0 <= i < lf.len() && lf[i] == Finding::DebugOutput;
    let first: Seq<Finding> = if byte_len(l) > max {
        seq![Finding::LongLine(byte_len(l))]
    } else {
        Seq::empty()
    };
    if is_comment_line(l) {
        assert(lf == first);
        assert(false);
    }
    let d: Seq<Finding> = if has_debug_output(lower) {
        seq![Finding::DebugOutput]
    } else {
        Seq::empty()
    };
    let sk: Seq<Finding> = if has_key_prefix(lower) {
        seq![Finding::SecretKey]
    } else {
        Seq::empty()
    };
    let dep: Seq<Finding> = if has_deprecated_api(lower) {
        seq![Finding::DeprecatedApi]
    } else {
        Seq::empty()
    };
    assert(lf == first + d + sk + dep);
    if !has_debug_output(lower) {
        if i < first.len() {
            assert(lf[i] == first[i]);
        } else if i < first.len() + sk.len() {
            assert(lf[i] == sk[i - first.len()]);
        } else {
            assert(lf[i] == dep[i - first.len() - sk.len()]);
        }
        assert(false);
    }
}


/// A fix reports that it applied exactly when it changed the line: `--fix`
/// counts a line as fixed if and only if it writes it back different.
pub proof fn law_fix_flag_means_changed(l: Seq<u8>, lang: Language)
    ensures
        line_needs_fix(l, lang) <==> fixed_line(l, lang) != l,
{
    lemma_none_literals();
    let ne = lit("!= None");
    let eq = lit("== None");
    let isn = lit("is None");
    let isnn = lit("is not None");
    let f = fixed_line(l, lang);
    if has_trailing_blank(l) {
        law_fixed_line_has_no_trailing_blank(l, lang);
        assert(f != l);
    } else {
        let a = fix_trailing(l);
        assert(a == l);
        if lang == Language::Python {
            let x = replace_first(a, eq, isn);
            let y = replace_first(x, ne, isnn);
            assert(f == y);
            if spec_contains(a, eq) {
                lemma_replace_first_len(a, eq, isn);
                let q = first_match(a, eq);
                assert(a.subrange(q, q + 7) == eq);
                assert(a.subrange(q, q + 7)[0] == a[q]);
                assert(x.subrange(q, q + 7) =~= isn);
                assert(x.subrange(q, q + 7)[0] == x[q]);
                if spec_contains(x, ne) {
                    lemma_replace_first_len(x, ne, isnn);
                } else {
                    assert(y[q] != a[q]);
                }
                assert(y != l);
            } else if spec_contains(x, ne) {
                lemma_replace_first_len(x, ne, isnn);
                assert(y != l);
            } else {
                assert(y == l);
            }
        } else if lang == Language::Script {
            reveal_strlit("var ");
            reveal_strlit("let ");
            lemma_lit_len("var ");
            lemma_lit_len("let ");
            broadcast use vstd::string::is_ascii_spec_bytes;

            if spec_starts_with(a, lit("var ")) {
                assert(is_ascii("var ") && is_ascii("let "));
                assert(lit("var ")[0] == 0x76u8);
                assert(lit("let ")[0] == 0x6cu8);
                assert(a.subrange(0, 4)[0] == a[0]);
                assert(f[0] == lit("let ")[0]);
                assert(f != l);
            } else {
                assert(f == l);
            }
        }
    }
}

} // verus!
