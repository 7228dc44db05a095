use vstd::prelude::*;

use crate::analyze::{
    blank_run, ends_with_newline, fixed_upto, line_before, output_line, output_upto, reports_upto,
    spec_fixed_lines, spec_new_content, spec_reports,
};
use crate::bytes::{
    first_match, in_class, lead_run, lemma_first_match_exists, lemma_lead_run_stops,
    lemma_trail_run_stops, occurs_at, spec_contains, spec_starts_with, spec_trim, trail_run,
    ByteClass,
};
use crate::fix::{
    fix_none, fix_trailing, fix_var, fixed_line, line_needs_fix, replace_first,
    strip_trailing_blank,
};
use crate::rules::{has_trailing_blank, lit};
use vstd::string::*;
use crate::lines::{is_newline, lemma_newline_index_bound, newline_index};
use crate::language::Language;
use crate::lines::spec_split_lines;
use crate::analyze::{analysis_of, FileAnalysis};
use crate::language::spec_language;
use crate::report::{
    cyan_code, decimal, icon, icon_color, message_text, paint_choice, ReportView,
};
use crate::rules::{
    blank_line_rules, common_rules, line_reports, python_rules_first,
    python_rules_second, rust_rules, script_rules,
};

verus! {

/// The codes of the rules.
pub open spec fn known_code(c: Seq<char>) -> bool {
    ||| c == "E501"@
    ||| c == "W291"@
    ||| c == "W293"@
    ||| c == "W191"@
    ||| c == "E302"@
    ||| c == "E303"@
    ||| c == "E711"@
    ||| c == "E712"@
    ||| c == "E721"@
    ||| c == "W605"@
    ||| c == "E401"@
    ||| c == "F403"@
    ||| c == "E722"@
    ||| c == "B006"@
    ||| c == "S105"@
    ||| c == "S605"@
    ||| c == "UP001"@
    ||| c == "E741"@
    ||| c == "AIR001"@
    ||| c == "S106"@
    ||| c == "R001"@
    ||| c == "R002"@
    ||| c == "R003"@
    ||| c == "R004"@
    ||| c == "R005"@
    ||| c == "NO-VAR"@
    ||| c == "NO-CONSOLE"@
    ||| c == "EQEQEQ"@
    ||| c == "NO-TODO"@
}

/// The codes of the rules whose reports are marked fixable.
pub open spec fn fixable_code(c: Seq<char>) -> bool {
    ||| c == "W291"@
    ||| c == "W293"@
    ||| c == "E711"@
    ||| c == "UP001"@
    ||| c == "NO-VAR"@
    ||| c == "EQEQEQ"@
}

/// A report on line `n` with a rule code, marked fixable exactly when its
/// rule is one of the fixable ones.
pub open spec fn sound_report(r: ReportView, n: int) -> bool {
    &&& r.line == n
    &&& known_code(r.code)
    &&& r.fixable == fixable_code(r.code)
}

pub open spec fn all_sound(s: Seq<ReportView>, n: int) -> bool {
    forall|i: int| 0 <= i < s.len() ==> sound_report(#[trigger] s[i], n)
}

proof fn lemma_line_reports_sound(
    l: Seq<u8>,
    prev: Seq<u8>,
    n: int,
    blanks: nat,
    max: usize,
    lang: Language,
)
    ensures
        all_sound(line_reports(l, prev, n, blanks, max, lang), n),
{
    let t = crate::bytes::spec_trim(l);
    let a = common_rules(Seq::empty(), l, n, max, lang);
    lemma_common_sound(Seq::empty(), l, n, max, lang);
    if lang == Language::Python {
        let b0 = blank_line_rules(a, l, n, blanks);
        lemma_blank_sound(a, l, n, blanks);
        let b1 = python_rules_first(b0, l, t, n);
        lemma_python_first_sound(b0, l, t, n);
        lemma_python_second_sound(b1, l, t, n);
    } else if lang == Language::Rust {
        lemma_rust_sound(a, l, t, prev, n);
    } else if lang == Language::Script {
        lemma_script_sound(a, l, t, n);
    }
}

proof fn lemma_common_sound(acc: Seq<ReportView>, l: Seq<u8>, n: int, max: usize, lang: Language)
    requires
        all_sound(acc, n),
    ensures
        all_sound(common_rules(acc, l, n, max, lang), n),
{
    lemma_code_chars();
}

proof fn lemma_blank_sound(acc: Seq<ReportView>, l: Seq<u8>, n: int, blanks: nat)
    requires
        all_sound(acc, n),
    ensures
        all_sound(blank_line_rules(acc, l, n, blanks), n),
{
    lemma_code_chars();
}

proof fn lemma_python_first_sound(acc: Seq<ReportView>, l: Seq<u8>, t: Seq<u8>, n: int)
    requires
        all_sound(acc, n),
    ensures
        all_sound(python_rules_first(acc, l, t, n), n),
{
    lemma_code_chars();
}

proof fn lemma_python_second_sound(acc: Seq<ReportView>, l: Seq<u8>, t: Seq<u8>, n: int)
    requires
        all_sound(acc, n),
    ensures
        all_sound(crate::rules::python_rules_second(acc, l, t, n), n),
{
    lemma_code_chars();
}

proof fn lemma_rust_sound(acc: Seq<ReportView>, l: Seq<u8>, t: Seq<u8>, prev: Seq<u8>, n: int)
    requires
        all_sound(acc, n),
    ensures
        all_sound(rust_rules(acc, l, t, prev, n), n),
{
    lemma_code_chars();
}

proof fn lemma_script_sound(acc: Seq<ReportView>, l: Seq<u8>, t: Seq<u8>, n: int)
    requires
        all_sound(acc, n),
    ensures
        all_sound(script_rules(acc, l, t, n), n),
{
    lemma_code_chars();
}

/// The characters of the rule codes.
pub proof fn lemma_code_chars()
    ensures
        "E501"@ == seq!['E', '5', '0', '1'],
        "W291"@ == seq!['W', '2', '9', '1'],
        "W293"@ == seq!['W', '2', '9', '3'],
        "W191"@ == seq!['W', '1', '9', '1'],
        "E302"@ == seq!['E', '3', '0', '2'],
        "E303"@ == seq!['E', '3', '0', '3'],
        "E711"@ == seq!['E', '7', '1', '1'],
        "E712"@ == seq!['E', '7', '1', '2'],
        "E721"@ == seq!['E', '7', '2', '1'],
        "W605"@ == seq!['W', '6', '0', '5'],
        "E401"@ == seq!['E', '4', '0', '1'],
        "F403"@ == seq!['F', '4', '0', '3'],
        "E722"@ == seq!['E', '7', '2', '2'],
        "B006"@ == seq!['B', '0', '0', '6'],
        "S105"@ == seq!['S', '1', '0', '5'],
        "S605"@ == seq!['S', '6', '0', '5'],
        "UP001"@ == seq!['U', 'P', '0', '0', '1'],
        "E741"@ == seq!['E', '7', '4', '1'],
        "AIR001"@ == seq!['A', 'I', 'R', '0', '0', '1'],
        "S106"@ == seq!['S', '1', '0', '6'],
        "R001"@ == seq!['R', '0', '0', '1'],
        "R002"@ == seq!['R', '0', '0', '2'],
        "R003"@ == seq!['R', '0', '0', '3'],
        "R004"@ == seq!['R', '0', '0', '4'],
        "R005"@ == seq!['R', '0', '0', '5'],
        "NO-VAR"@ == seq!['N', 'O', '-', 'V', 'A', 'R'],
        "NO-CONSOLE"@ == seq!['N', 'O', '-', 'C', 'O', 'N', 'S', 'O', 'L', 'E'],
        "EQEQEQ"@ == seq!['E', 'Q', 'E', 'Q', 'E', 'Q'],
        "NO-TODO"@ == seq!['N', 'O', '-', 'T', 'O', 'D', 'O'],
{
    reveal_strlit("E501");
    reveal_strlit("W291");
    reveal_strlit("W293");
    reveal_strlit("W191");
    reveal_strlit("E302");
    reveal_strlit("E303");
    reveal_strlit("E711");
    reveal_strlit("E712");
    reveal_strlit("E721");
    reveal_strlit("W605");
    reveal_strlit("E401");
    reveal_strlit("F403");
    reveal_strlit("E722");
    reveal_strlit("B006");
    reveal_strlit("S105");
    reveal_strlit("S605");
    reveal_strlit("UP001");
    reveal_strlit("E741");
    reveal_strlit("AIR001");
    reveal_strlit("S106");
    reveal_strlit("R001");
    reveal_strlit("R002");
    reveal_strlit("R003");
    reveal_strlit("R004");
    reveal_strlit("R005");
    reveal_strlit("NO-VAR");
    reveal_strlit("NO-CONSOLE");
    reveal_strlit("EQEQEQ");
    reveal_strlit("NO-TODO");
}

proof fn lemma_reports_upto_sound(ls: Seq<Seq<u8>>, k: int, max: usize, lang: Language)
    requires
        0 <= k <= ls.len(),
    ensures
        forall|i: int|
            0 <= i < reports_upto(ls, k, max, lang).len() ==> {
                let r = #[trigger] reports_upto(ls, k, max, lang)[i];
                &&& 1 <= r.line <= k
                &&& known_code(r.code)
                &&& r.fixable == fixable_code(r.code)
            },
        forall|i: int, j: int|
            0 <= i <= j < reports_upto(ls, k, max, lang).len() ==> #[trigger] reports_upto(
                ls,
                k,
                max,
                lang,
            )[i].line <= #[trigger] reports_upto(ls, k, max, lang)[j].line,
    decreases k,
{
    if k > 0 {
        lemma_reports_upto_sound(ls, k - 1, max, lang);
        let prefix = reports_upto(ls, k - 1, max, lang);
        let here = line_reports(
            ls[k - 1],
            line_before(ls, k - 1),
            k,
            blank_run(ls, k - 1),
            max,
            lang,
        );
        lemma_line_reports_sound(ls[k - 1], line_before(ls, k - 1), k, blank_run(ls, k - 1), max, lang);
        let all = reports_upto(ls, k, max, lang);
        assert(all == prefix + here);
        assert forall|i: int| 0 <= i < all.len() implies {
            let r = #[trigger] all[i];
            &&& 1 <= r.line <= k
            &&& known_code(r.code)
            &&& r.fixable == fixable_code(r.code)
        } by {
            if i < prefix.len() {
                assert(all[i] == prefix[i]);
            } else {
                assert(all[i] == here[i - prefix.len()]);
                assert(sound_report(here[i - prefix.len()], k));
            }
        }
        assert forall|i: int, j: int| 0 <= i <= j < all.len() implies #[trigger] all[i].line
            <= #[trigger] all[j].line by {
            if j < prefix.len() {
                assert(all[i] == prefix[i]);
                assert(all[j] == prefix[j]);
            } else if i < prefix.len() {
                assert(all[i] == prefix[i]);
                assert(all[j] == here[j - prefix.len()]);
                assert(sound_report(here[j - prefix.len()], k));
            } else {
                assert(all[i] == here[i - prefix.len()]);
                assert(all[j] == here[j - prefix.len()]);
                assert(sound_report(here[i - prefix.len()], k));
                assert(sound_report(here[j - prefix.len()], k));
            }
        }
    }
}

/// Every report on a content names one of the rules, points at one of the
/// content's lines, and is marked fixable exactly when its rule is one that
/// `--fix` handles; the reports come in the order of their lines.
pub proof fn law_reports_sound(c: Seq<u8>, max: usize, lang: Language)
    ensures
        forall|i: int|
            0 <= i < spec_reports(c, max, lang).len() ==> {
                let r = #[trigger] spec_reports(c, max, lang)[i];
                &&& 1 <= r.line <= spec_split_lines(c).len()
                &&& known_code(r.code)
                &&& r.fixable == fixable_code(r.code)
            },
        forall|i: int, j: int|
            0 <= i <= j < spec_reports(c, max, lang).len() ==> #[trigger] spec_reports(
                c,
                max,
                lang,
            )[i].line <= #[trigger] spec_reports(c, max, lang)[j].line,
{
    let ls = spec_split_lines(c);
    lemma_reports_upto_sound(ls, ls.len() as int, max, lang);
}

proof fn lemma_output_cons(a: Seq<u8>, rest: Seq<Seq<u8>>, k: int, lang: Language, fix: bool)
    requires
        0 <= k <= rest.len(),
    ensures
        output_upto(seq![a] + rest, k + 1, lang, fix) == output_line(a, lang, fix) + seq![0x0au8]
            + output_upto(rest, k, lang, fix),
    decreases k,
{
    let s = seq![a] + rest;
    if k == 0 {
        assert(s[0] == a);
        assert(output_upto(s, 0, lang, fix) == Seq::<u8>::empty());
        assert(output_upto(rest, 0, lang, fix) == Seq::<u8>::empty());
        assert(output_upto(s, 1, lang, fix) =~= output_line(a, lang, fix) + seq![0x0au8]
            + output_upto(rest, 0, lang, fix));
    } else {
        lemma_output_cons(a, rest, k - 1, lang, fix);
        assert(s[k] == rest[k - 1]);
        assert(output_upto(s, k + 1, lang, fix) =~= output_line(a, lang, fix) + seq![0x0au8]
            + output_upto(rest, k, lang, fix));
    }
}

/// Without fixes, the lines of `c`, each followed by `'\n'`, give back `c`,
/// plus a `'\n'` when `c` does not end in one.
proof fn lemma_output_unfixed(c: Seq<u8>, lang: Language)
    ensures
        output_upto(spec_split_lines(c), spec_split_lines(c).len() as int, lang, false) == if c.len()
            == 0 || ends_with_newline(c) {
            c
        } else {
            c.push(0x0au8)
        },
    decreases c.len(),
{
    let ls = spec_split_lines(c);
    if c.len() == 0 {
        assert(ls.len() == 0);
    } else {
        let i = newline_index(c);
        lemma_newline_index_bound(c);
        if i < c.len() {
            let head = c.subrange(0, i as int);
            let rest = c.subrange(i as int + 1, c.len() as int);
            let rls = spec_split_lines(rest);
            assert(ls == seq![head] + rls);
            lemma_output_cons(head, rls, rls.len() as int, lang, false);
            lemma_output_unfixed(rest, lang);
            assert(c =~= head + seq![0x0au8] + rest);
            if rest.len() == 0 {
                assert(ends_with_newline(c));
            } else {
                assert(c.last() == rest.last());
                if ends_with_newline(rest) {
                    assert(output_upto(ls, ls.len() as int, lang, false) =~= c);
                } else {
                    assert(output_upto(ls, ls.len() as int, lang, false) =~= c.push(0x0au8));
                }
            }
        } else {
            assert(ls == seq![c]);
            assert(output_upto(ls, 0, lang, false) == Seq::<u8>::empty());
            assert(output_upto(ls, 1, lang, false) =~= c.push(0x0au8));
            crate::lines::lemma_before_newline_index(c, c.len() - 1);
            assert(!is_newline(c[c.len() - 1]));
        }
    }
}

/// Without fixes, the content written back is the content read: splitting
/// into lines and joining them again loses nothing.
pub proof fn law_unfixed_content_unchanged(c: Seq<u8>, lang: Language)
    ensures
        spec_new_content(c, lang, false) == c,
{
    lemma_output_unfixed(c, lang);
    let ls = spec_split_lines(c);
    let out = output_upto(ls, ls.len() as int, lang, false);
    if !(c.len() == 0 || ends_with_newline(c)) {
        assert(out.drop_last() =~= c);
    }
}

/// A line that no fix applies to comes out of the fixes unchanged.
pub proof fn law_unneeded_fix_is_identity(l: Seq<u8>, lang: Language)
    requires
        !line_needs_fix(l, lang),
    ensures
        fixed_line(l, lang) == l,
{
}

proof fn lemma_output_when_nothing_fixed(ls: Seq<Seq<u8>>, k: int, lang: Language)
    requires
        0 <= k <= ls.len(),
        fixed_upto(ls, k, lang, true) == 0,
    ensures
        output_upto(ls, k, lang, true) == output_upto(ls, k, lang, false),
    decreases k,
{
    if k > 0 {
        lemma_output_when_nothing_fixed(ls, k - 1, lang);
        law_unneeded_fix_is_identity(ls[k - 1], lang);
    }
}

/// In fix mode, when no line needs a fix, the content written back is the
/// content read.
pub proof fn law_nothing_to_fix_keeps_content(c: Seq<u8>, lang: Language)
    requires
        spec_fixed_lines(c, lang, true) == 0,
    ensures
        spec_new_content(c, lang, true) == c,
{
    let ls = spec_split_lines(c);
    lemma_output_when_nothing_fixed(ls, ls.len() as int, lang);
    law_unfixed_content_unchanged(c, lang);
}

/// At most every line is fixed, and none outside fix mode.
pub proof fn law_fixed_lines_bound(c: Seq<u8>, lang: Language, fix: bool)
    ensures
        spec_fixed_lines(c, lang, fix) <= spec_split_lines(c).len(),
        !fix ==> spec_fixed_lines(c, lang, fix) == 0,
{
    let ls = spec_split_lines(c);
    crate::analyze::lemma_fixed_upto_bound(ls, ls.len() as int, lang, fix);
    if !fix {
        lemma_fixed_upto_zero(ls, ls.len() as int, lang);
    }
}

proof fn lemma_fixed_upto_zero(ls: Seq<Seq<u8>>, k: int, lang: Language)
    ensures
        fixed_upto(ls, k, lang, false) == 0,
    decreases k,
{
    if k > 0 {
        lemma_fixed_upto_zero(ls, k - 1, lang);
    }
}

/// Trimming leaves no space or tab at the start and no space, tab or
/// carriage return at the end; a line trims to nothing exactly when it is
/// made of spaces, tabs and carriage returns; and trimming twice is trimming
/// once.
pub proof fn law_trim(l: Seq<u8>)
    ensures
        spec_trim(l).len() > 0 ==> !in_class(spec_trim(l)[0], ByteClass::Blank) && !in_class(
            spec_trim(l).last(),
            ByteClass::BlankOrCr,
        ),
        spec_trim(l).len() == 0 <==> forall|j: int|
            0 <= j < l.len() ==> in_class(#[trigger] l[j], ByteClass::BlankOrCr),
        spec_trim(spec_trim(l)) == spec_trim(l),
{
    lemma_lead_run_stops(l, ByteClass::Blank);
    lemma_trail_run_stops(l, ByteClass::BlankOrCr);
    let start = lead_run(l, ByteClass::Blank);
    let end = l.len() - trail_run(l, ByteClass::BlankOrCr);
    let t = spec_trim(l);
    if start < end {
        assert(t[0] == l[start as int]);
        assert(t.last() == l[end - 1]);
        assert(l[end - 1] == l[l.len() - trail_run(l, ByteClass::BlankOrCr) - 1]);
        assert(!in_class(l[end - 1], ByteClass::BlankOrCr));
        if forall|j: int| 0 <= j < l.len() ==> in_class(#[trigger] l[j], ByteClass::BlankOrCr) {
            assert(in_class(l[end - 1], ByteClass::BlankOrCr));
        }
        lemma_lead_run_stops(t, ByteClass::Blank);
        lemma_trail_run_stops(t, ByteClass::BlankOrCr);
        if lead_run(t, ByteClass::Blank) > 0 {
            assert(in_class(t[0], ByteClass::Blank));
        }
        if trail_run(t, ByteClass::BlankOrCr) > 0 {
            assert(in_class(t[t.len() - 1], ByteClass::BlankOrCr));
        }
        assert(spec_trim(t) =~= t);
    } else {
        assert forall|j: int| 0 <= j < l.len() implies in_class(
            #[trigger] l[j],
            ByteClass::BlankOrCr,
        ) by {
            if j < end {
                assert(j < start);
                assert(in_class(l[j], ByteClass::Blank));
            }
        }
        assert(spec_trim(t) =~= t);
    }
}

proof fn lemma_fix_trailing_clean(l: Seq<u8>)
    ensures
        !has_trailing_blank(fix_trailing(l)),
{
    if has_trailing_blank(l) {
        lemma_trail_run_stops(l, ByteClass::Blank);
        let a = strip_trailing_blank(l);
        if a.len() > 0 {
            assert(a.last() == l[l.len() - trail_run(l, ByteClass::Blank) - 1]);
        }
    }
}

proof fn lemma_replace_keeps_clean(a: Seq<u8>, pat: Seq<u8>, rep: Seq<u8>)
    requires
        !has_trailing_blank(a),
        rep.len() > 0,
        !in_class(rep.last(), ByteClass::Blank),
    ensures
        !has_trailing_blank(replace_first(a, pat, rep)),
{
    if spec_contains(a, pat) {
        let w = choose|w: int| occurs_at(a, pat, w);
        lemma_first_match_exists(a, pat, w);
        let i = first_match(a, pat);
        let r = replace_first(a, pat, rep);
        let tail = a.subrange(i + pat.len(), a.len() as int);
        if tail.len() > 0 {
            assert(r.last() == a.last());
        } else {
            assert(r.last() == rep.last());
        }
    }
}

proof fn lemma_literal_ends(s: &str, c: char)
    requires
        is_ascii(s),
        s@.len() > 0,
        s@.last() == c,
    ensures
        lit(s).len() > 0,
        lit(s).last() == c as u8,
{
    broadcast use vstd::string::is_ascii_spec_bytes;
}

/// A line that `--fix` rewrote ends in neither a space nor a tab, so the
/// trailing-whitespace rules no longer apply to it.
pub proof fn law_fixed_line_has_no_trailing_blank(l: Seq<u8>, lang: Language)
    ensures
        !has_trailing_blank(fixed_line(l, lang)),
{
    lemma_fix_trailing_clean(l);
    let a = fix_trailing(l);
    reveal_strlit("is None");
    reveal_strlit("is not None");
    reveal_strlit("var ");
    reveal_strlit("let ");
    lemma_literal_ends("is None", 'e');
    lemma_literal_ends("is not None", 'e');
    let b = if lang == Language::Python {
        lemma_replace_keeps_clean(a, lit("== None"), lit("is None"));
        lemma_replace_keeps_clean(
            replace_first(a, lit("== None"), lit("is None")),
            lit("!= None"),
            lit("is not None"),
        );
        fix_none(a)
    } else {
        a
    };
    if lang == Language::Script && spec_starts_with(b, lit("var ")) {
        broadcast use vstd::string::is_ascii_spec_bytes;
        assert(is_ascii("var "));
        assert(is_ascii("let "));
        assert(lit("var ").len() == 4);
        assert(lit("let ").len() == 4);
        assert(b[3] == lit("var ")[3]);
        assert(lit("var ")[3] == 0x20);
        let v = fix_var(b);
        assert(b.len() > 4);
        assert(v.last() == b.last());
    }
}

/// `l` holds no `'\n'`.
pub open spec fn no_newline(l: Seq<u8>) -> bool {
    forall|j: int| 0 <= j < l.len() ==> !is_newline(#[trigger] l[j])
}

proof fn lemma_split_lines_no_newline(c: Seq<u8>)
    ensures
        forall|k: int|
            0 <= k < spec_split_lines(c).len() ==> no_newline(#[trigger] spec_split_lines(c)[k]),
        c.len() > 0 ==> spec_split_lines(c).len() > 0,
    decreases c.len(),
{
    let ls = spec_split_lines(c);
    if c.len() > 0 {
        let i = newline_index(c);
        lemma_newline_index_bound(c);
        if i < c.len() {
            let head = c.subrange(0, i as int);
            let rest = c.subrange(i as int + 1, c.len() as int);
            lemma_split_lines_no_newline(rest);
            assert forall|j: int| 0 <= j < head.len() implies !is_newline(#[trigger] head[j]) by {
                crate::lines::lemma_before_newline_index(c, j);
            }
            assert forall|k: int| 0 <= k < ls.len() implies no_newline(#[trigger] ls[k]) by {
                if k > 0 {
                    assert(ls[k] == spec_split_lines(rest)[k - 1]);
                }
            }
        } else {
            assert forall|j: int| 0 <= j < c.len() implies !is_newline(#[trigger] c[j]) by {
                crate::lines::lemma_before_newline_index(c, j);
            }
        }
    }
}

proof fn lemma_ascii_no_newline(s: &str)
    requires
        is_ascii(s),
        forall|j: int| 0 <= j < s@.len() ==> s@[j] != '\n',
    ensures
        no_newline(lit(s)),
{
    broadcast use vstd::string::is_ascii_spec_bytes;

    assert forall|j: int| 0 <= j < lit(s).len() implies !is_newline(#[trigger] lit(s)[j]) by {
        assert(lit(s)[j] == s@[j] as u8);
    }
}

proof fn lemma_replace_no_newline(a: Seq<u8>, pat: Seq<u8>, rep: Seq<u8>)
    requires
        no_newline(a),
        no_newline(rep),
    ensures
        no_newline(replace_first(a, pat, rep)),
{
    if spec_contains(a, pat) {
        let w = choose|w: int| occurs_at(a, pat, w);
        lemma_first_match_exists(a, pat, w);
        let i = first_match(a, pat);
        let r = replace_first(a, pat, rep);
        assert forall|j: int| 0 <= j < r.len() implies !is_newline(#[trigger] r[j]) by {
            if j < i {
                assert(r[j] == a[j]);
            } else if j < i + rep.len() {
                assert(r[j] == rep[j - i]);
            } else {
                assert(r[j] == a[j - rep.len() + pat.len()]);
            }
        }
    }
}

proof fn lemma_fixed_line_no_newline(l: Seq<u8>, lang: Language)
    requires
        no_newline(l),
    ensures
        no_newline(fixed_line(l, lang)),
{
    let a = fix_trailing(l);
    if has_trailing_blank(l) {
        lemma_trail_run_stops(l, ByteClass::Blank);
        assert forall|j: int| 0 <= j < a.len() implies !is_newline(#[trigger] a[j]) by {
            assert(a[j] == l[j]);
        }
    }
    reveal_strlit("is None");
    reveal_strlit("is not None");
    reveal_strlit("let ");
    lemma_ascii_no_newline("is None");
    lemma_ascii_no_newline("is not None");
    lemma_ascii_no_newline("let ");
    let b = if lang == Language::Python {
        lemma_replace_no_newline(a, lit("== None"), lit("is None"));
        lemma_replace_no_newline(
            replace_first(a, lit("== None"), lit("is None")),
            lit("!= None"),
            lit("is not None"),
        );
        fix_none(a)
    } else {
        a
    };
    if lang == Language::Script && spec_starts_with(b, lit("var ")) {
        let v = fix_var(b);
        let k = lit("var ").len() as int;
        assert forall|j: int| 0 <= j < v.len() implies !is_newline(#[trigger] v[j]) by {
            if j < lit("let ").len() {
                assert(v[j] == lit("let ")[j]);
            } else {
                assert(v[j] == b[j - lit("let ").len() + k]);
            }
        }
    }
}

/// Splitting `a`, a `'\n'`, then `r` gives `a` and the lines of `r`.
proof fn lemma_split_after_line(a: Seq<u8>, r: Seq<u8>)
    requires
        no_newline(a),
    ensures
        spec_split_lines(a + seq![0x0au8] + r) == seq![a] + spec_split_lines(r),
{
    let c = a + seq![0x0au8] + r;
    assert(c[a.len() as int] == 0x0au8);
    assert forall|j: int| 0 <= j < a.len() implies !is_newline(#[trigger] c[j]) by {
        assert(c[j] == a[j]);
    }
    crate::lines::lemma_newline_index(c, a.len() as int);
    assert(c.subrange(0, a.len() as int) =~= a);
    assert(c.subrange(a.len() as int + 1, c.len() as int) =~= r);
}

/// The output lines, as `output_upto` writes them.
pub open spec fn output_lines(ls: Seq<Seq<u8>>, lang: Language, fix: bool) -> Seq<Seq<u8>> {
    ls.map_values(|l: Seq<u8>| output_line(l, lang, fix))
}

proof fn lemma_split_output(ls: Seq<Seq<u8>>, k: int, t: Seq<u8>, lang: Language, fix: bool)
    requires
        0 <= k <= ls.len(),
        forall|j: int| 0 <= j < k ==> no_newline(#[trigger] output_line(ls[j], lang, fix)),
    ensures
        spec_split_lines(output_upto(ls, k, lang, fix) + t) == output_lines(ls, lang, fix).take(k)
            + spec_split_lines(t),
    decreases k,
{
    if k == 0 {
        assert(output_upto(ls, 0, lang, fix) + t =~= t);
        assert(output_lines(ls, lang, fix).take(0) =~= Seq::<Seq<u8>>::empty());
        assert(Seq::<Seq<u8>>::empty() + spec_split_lines(t) =~= spec_split_lines(t));
    } else {
        let rest = ls.drop_first();
        assert(ls =~= seq![ls[0]] + rest);
        lemma_output_cons(ls[0], rest, k - 1, lang, fix);
        assert forall|j: int| 0 <= j < k - 1 implies no_newline(
            #[trigger] output_line(rest[j], lang, fix),
        ) by {
            assert(rest[j] == ls[j + 1]);
            assert(no_newline(output_line(ls[j + 1], lang, fix)));
        }
        lemma_split_output(rest, k - 1, t, lang, fix);
        let a = output_line(ls[0], lang, fix);
        assert(no_newline(output_line(ls[0], lang, fix)));
        let r = output_upto(rest, k - 1, lang, fix) + t;
        assert(output_upto(ls, k, lang, fix) + t =~= a + seq![0x0au8] + r);
        lemma_split_after_line(a, r);
        assert(output_lines(ls, lang, fix).take(k) =~= seq![a] + output_lines(rest, lang, fix).take(
            k - 1,
        ));
    }
}

/// The lines of the content written back: the output lines, except that a
/// last line without a final `'\n'` that comes out empty is gone.
proof fn lemma_new_content_lines(c: Seq<u8>, lang: Language, fix: bool)
    ensures
        spec_split_lines(spec_new_content(c, lang, fix)) == if !(c.len() == 0 || ends_with_newline(c))
            && output_line(spec_split_lines(c).last(), lang, fix).len() == 0 {
            output_lines(spec_split_lines(c), lang, fix).take(spec_split_lines(c).len() - 1)
        } else {
            output_lines(spec_split_lines(c), lang, fix)
        },
{
    let ls = spec_split_lines(c);
    let n = ls.len() as int;
    lemma_split_lines_no_newline(c);
    assert forall|j: int| 0 <= j < n implies no_newline(#[trigger] output_line(ls[j], lang, fix)) by {
        assert(no_newline(ls[j]));
        if fix {
            lemma_fixed_line_no_newline(ls[j], lang);
        }
    }
    let out = output_upto(ls, n, lang, fix);
    let outs = output_lines(ls, lang, fix);
    assert(outs.take(n) =~= outs);
    let empty = Seq::<u8>::empty();
    assert(spec_split_lines(empty) == Seq::<Seq<u8>>::empty());
    if c.len() == 0 || ends_with_newline(c) {
        lemma_split_output(ls, n, empty, lang, fix);
        assert(out + empty =~= out);
        assert(outs + Seq::<Seq<u8>>::empty() =~= outs);
    } else {
        let last = output_line(ls[n - 1], lang, fix);
        assert(out == output_upto(ls, n - 1, lang, fix) + last + seq![0x0au8]);
        assert(out.drop_last() =~= output_upto(ls, n - 1, lang, fix) + last);
        lemma_split_output(ls, n - 1, last, lang, fix);
        if last.len() > 0 {
            crate::lines::lemma_newline_index(last, last.len() as int);
            assert(spec_split_lines(last) == seq![last]);
            assert(outs =~= outs.take(n - 1) + seq![last]);
        } else {
            assert(outs.take(n - 1) + spec_split_lines(last) =~= outs.take(n - 1));
        }
    }
}

/// Writing the content back keeps its lines: splitting the written content
/// gives each line of the content as the fixes left it (the line itself
/// outside fix mode). The one exception is a last line without a final
/// `'\n'` that the fixes empty: it disappears.
pub proof fn law_fix_keeps_lines(c: Seq<u8>, lang: Language, fix: bool)
    requires
        ends_with_newline(c) || c.len() == 0 || output_line(
            spec_split_lines(c).last(),
            lang,
            fix,
        ).len() > 0,
    ensures
        spec_split_lines(spec_new_content(c, lang, fix)) == output_lines(
            spec_split_lines(c),
            lang,
            fix,
        ),
{
    lemma_new_content_lines(c, lang, fix);
}

/// No report in `s` is a trailing-whitespace report.
pub open spec fn no_trailing_whitespace_report(s: Seq<ReportView>) -> bool {
    forall|i: int| 0 <= i < s.len() ==> (#[trigger] s[i]).code != "W291"@ && s[i].code != "W293"@
}

proof fn lemma_common_no_trailing(acc: Seq<ReportView>, l: Seq<u8>, n: int, max: usize, lang: Language)
    requires
        no_trailing_whitespace_report(acc),
        !has_trailing_blank(l),
    ensures
        no_trailing_whitespace_report(common_rules(acc, l, n, max, lang)),
{
    lemma_code_chars();
}

proof fn lemma_groups_no_trailing(acc: Seq<ReportView>, l: Seq<u8>, t: Seq<u8>, prev: Seq<u8>, n: int, blanks: nat)
    requires
        no_trailing_whitespace_report(acc),
    ensures
        no_trailing_whitespace_report(blank_line_rules(acc, l, n, blanks)),
        no_trailing_whitespace_report(python_rules_first(acc, l, t, n)),
        no_trailing_whitespace_report(crate::rules::python_rules_second(acc, l, t, n)),
        no_trailing_whitespace_report(rust_rules(acc, l, t, prev, n)),
        no_trailing_whitespace_report(script_rules(acc, l, t, n)),
{
    lemma_code_chars();
}

/// A line that ends in neither a space nor a tab gets no trailing-whitespace
/// report.
pub proof fn law_clean_line_has_no_trailing_whitespace_report(
    l: Seq<u8>,
    prev: Seq<u8>,
    n: int,
    blanks: nat,
    max: usize,
    lang: Language,
)
    requires
        !has_trailing_blank(l),
    ensures
        no_trailing_whitespace_report(line_reports(l, prev, n, blanks, max, lang)),
{
    let t = spec_trim(l);
    let a = common_rules(Seq::empty(), l, n, max, lang);
    lemma_common_no_trailing(Seq::empty(), l, n, max, lang);
    if lang == Language::Python {
        let b0 = blank_line_rules(a, l, n, blanks);
        lemma_groups_no_trailing(a, l, t, prev, n, blanks);
        let b1 = python_rules_first(b0, l, t, n);
        lemma_groups_no_trailing(b0, l, t, prev, n, blanks);
        lemma_groups_no_trailing(b1, l, t, prev, n, blanks);
    } else {
        lemma_groups_no_trailing(a, l, t, prev, n, blanks);
    }
}

proof fn lemma_reports_upto_no_trailing(ls: Seq<Seq<u8>>, k: int, max: usize, lang: Language)
    requires
        0 <= k <= ls.len(),
        forall|j: int| 0 <= j < k ==> !has_trailing_blank(#[trigger] ls[j]),
    ensures
        no_trailing_whitespace_report(reports_upto(ls, k, max, lang)),
    decreases k,
{
    if k > 0 {
        lemma_reports_upto_no_trailing(ls, k - 1, max, lang);
        let prefix = reports_upto(ls, k - 1, max, lang);
        let here = line_reports(
            ls[k - 1],
            line_before(ls, k - 1),
            k,
            blank_run(ls, k - 1),
            max,
            lang,
        );
        law_clean_line_has_no_trailing_whitespace_report(
            ls[k - 1],
            line_before(ls, k - 1),
            k,
            blank_run(ls, k - 1),
            max,
            lang,
        );
        let all = reports_upto(ls, k, max, lang);
        assert(all == prefix + here);
        assert forall|i: int| 0 <= i < all.len() implies (#[trigger] all[i]).code != "W291"@
            && all[i].code != "W293"@ by {
            if i < prefix.len() {
                assert(all[i] == prefix[i]);
            } else {
                assert(all[i] == here[i - prefix.len()]);
            }
        }
    }
}

/// After `--fix`, the content written back gets no trailing-whitespace
/// report (W291 or W293), whatever the content and the line limit.
pub proof fn law_fixed_content_has_no_trailing_whitespace_report(
    c: Seq<u8>,
    max: usize,
    lang: Language,
)
    ensures
        no_trailing_whitespace_report(spec_reports(spec_new_content(c, lang, true), max, lang)),
{
    let nc = spec_new_content(c, lang, true);
    let ls = spec_split_lines(c);
    let nls = spec_split_lines(nc);
    lemma_new_content_lines(c, lang, true);
    let outs = output_lines(ls, lang, true);
    assert forall|j: int| 0 <= j < nls.len() implies !has_trailing_blank(#[trigger] nls[j]) by {
        assert(nls[j] == outs[j]);
        assert(outs[j] == fixed_line(ls[j], lang));
        law_fixed_line_has_no_trailing_blank(ls[j], lang);
    }
    lemma_reports_upto_no_trailing(nls, nls.len() as int, max, lang);
}


/// Without fix mode no line counts as fixed.
proof fn lemma_unfixed_count(ls: Seq<Seq<u8>>, k: int, lang: Language)
    ensures
        fixed_upto(ls, k, lang, false) == 0,
    decreases k,
{
    if k > 0 {
        lemma_unfixed_count(ls, k - 1, lang);
    }
}

/// Every rule code is a non-empty word that does not start with an escape.
proof fn lemma_known_code_starts_plain(c: Seq<char>)
    requires
        known_code(c),
    ensures
        c.len() > 0,
        c[0] != '\u{1b}',
{
    reveal_strlit("E501");
    reveal_strlit("W291");
    reveal_strlit("W293");
    reveal_strlit("W191");
    reveal_strlit("E302");
    reveal_strlit("E303");
    reveal_strlit("E711");
    reveal_strlit("E712");
    reveal_strlit("E721");
    reveal_strlit("W605");
    reveal_strlit("E401");
    reveal_strlit("F403");
    reveal_strlit("E722");
    reveal_strlit("B006");
    reveal_strlit("S105");
    reveal_strlit("S605");
    reveal_strlit("UP001");
    reveal_strlit("E741");
    reveal_strlit("AIR001");
    reveal_strlit("S106");
    reveal_strlit("R001");
    reveal_strlit("R002");
    reveal_strlit("R003");
    reveal_strlit("R004");
    reveal_strlit("R005");
    reveal_strlit("NO-VAR");
    reveal_strlit("NO-CONSOLE");
    reveal_strlit("EQEQEQ");
    reveal_strlit("NO-TODO");
}

/// Painting the icon and the code is visible in the message: two messages for
/// one report are equal only when both colour choices are the same.
proof fn lemma_message_colours_visible(
    r: ReportView,
    path: Seq<char>,
    icon1: bool,
    code1: bool,
    icon2: bool,
    code2: bool,
)
    requires
        r.code.len() > 0,
        r.code[0] != '\u{1b}',
        message_text(r, path, icon1, code1) == message_text(r, path, icon2, code2),
    ensures
        icon1 == icon2,
        code1 == code2,
{
    reveal_strlit("\u{26a0}");
    reveal_strlit("\u{2716}");
    reveal_strlit(" ");
    reveal_strlit(":");
    reveal_strlit(" [");
    reveal_strlit("] ");
    let ic = icon_color(r.fixable);
    let m1 = message_text(r, path, icon1, code1);
    let m2 = message_text(r, path, icon2, code2);
    let i1 = paint_choice(icon(r.fixable), ic, icon1);
    let i2 = paint_choice(icon(r.fixable), ic, icon2);
    let c1 = paint_choice(r.code, cyan_code(), code1);
    let c2 = paint_choice(r.code, cyan_code(), code2);
    assert(i1.len() > 0 && i2.len() > 0);
    assert(i1[0] == (if icon1 { '\u{1b}' } else { icon(r.fixable)[0] }));
    assert(i2[0] == (if icon2 { '\u{1b}' } else { icon(r.fixable)[0] }));
    assert(m1[0] == i1[0]);
    assert(m2[0] == i2[0]);
    assert(icon1 == icon2);
    let pre = i1 + " "@ + path + ":"@ + decimal(r.line as nat) + ":"@ + decimal(r.col as nat)
        + " ["@;
    let k = pre.len() as int;
    assert(c1.len() > 0 && c2.len() > 0);
    assert(c1[0] == (if code1 { '\u{1b}' } else { r.code[0] }));
    assert(c2[0] == (if code2 { '\u{1b}' } else { r.code[0] }));
    assert(m1 == pre + c1 + "] "@ + r.message);
    assert(m2 == pre + c2 + "] "@ + r.message);
    assert(m1[k] == c1[0]);
    assert(m2[k] == c2[0]);
}

/// Fix mode changes what is written back and the count of fixed lines, never
/// what is reported: a run with `--fix` and one without on the same content
/// give one message per report each, formatted from the same report, and a
/// message of one run is equal to that of the other exactly when its icon and
/// its code were coloured alike in both (colouring is decided by the
/// environment at each call).
pub proof fn law_fix_mode_keeps_messages(
    content: Seq<u8>,
    ext: Seq<char>,
    path: Seq<char>,
    max: usize,
    plain: FileAnalysis,
    fixing: FileAnalysis,
)
    requires
        analysis_of(plain, content, ext, path, max, false),
        analysis_of(fixing, content, ext, path, max, true),
    ensures
        plain.messages@.len() == fixing.messages@.len(),
        forall|i: int, icon1: bool, code1: bool, icon2: bool, code2: bool|
            0 <= i < plain.messages@.len() && plain.messages@[i]@ == #[trigger] message_text(
                spec_reports(content, max, spec_language(ext))[i],
                path,
                icon1,
                code1,
            ) && fixing.messages@[i]@ == #[trigger] message_text(
                spec_reports(content, max, spec_language(ext))[i],
                path,
                icon2,
                code2,
            ) ==> (plain.messages@[i]@ == fixing.messages@[i]@ <==> icon1 == icon2 && code1
                == code2),
        plain.fixed_lines == 0,
        plain.rewrite is None,
{
    let rs = spec_reports(content, max, spec_language(ext));
    law_reports_sound(content, max, spec_language(ext));
    assert forall|i: int, icon1: bool, code1: bool, icon2: bool, code2: bool|
        0 <= i < plain.messages@.len() && plain.messages@[i]@ == #[trigger] message_text(
            rs[i],
            path,
            icon1,
            code1,
        ) && fixing.messages@[i]@ == #[trigger] message_text(
            rs[i],
            path,
            icon2,
            code2,
        ) implies (plain.messages@[i]@ == fixing.messages@[i]@ <==> icon1 == icon2 && code1
        == code2) by {
        lemma_known_code_starts_plain(rs[i].code);
        if plain.messages@[i]@ == fixing.messages@[i]@ {
            lemma_message_colours_visible(rs[i], path, icon1, code1, icon2, code2);
        }
    }
    let ls = spec_split_lines(content);
    lemma_unfixed_count(ls, ls.len() as int, spec_language(ext));
}

} // verus!
