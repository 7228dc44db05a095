use vstd::prelude::*;
use vstd::string::*;

use crate::bytes::{spec_trim, trim};
use crate::fix::{append_bytes, fix_line, fixed_line, line_needs_fix};
use crate::language::{language_of, spec_language, Language};
use crate::lines::{slice_views, spec_split_lines, split_lines};
use crate::report::{formatted_exactly, lemma_views_append, views, LintReport, ReportView};
use crate::rules::{check_line, line_reports};

verus! {

/// Number of blank lines (empty once trimmed) just before line `k`.
pub open spec fn blank_run(ls: Seq<Seq<u8>>, k: int) -> nat
    decreases k,
{
    if k <= 0 {
        0
    } else if spec_trim(ls[k - 1]).len() == 0 {
        blank_run(ls, k - 1) + 1
    } else {
        0
    }
}

pub proof fn lemma_blank_run_bound(ls: Seq<Seq<u8>>, k: int)
    ensures
        blank_run(ls, k) <= if k < 0 {
            0
        } else {
            k
        },
    decreases k,
{
    if k > 0 {
        lemma_blank_run_bound(ls, k - 1);
    }
}

/// The line before line `k`, or nothing for the first line.
pub open spec fn line_before(ls: Seq<Seq<u8>>, k: int) -> Seq<u8> {
    if k <= 0 {
        Seq::empty()
    } else {
        ls[k - 1]
    }
}

/// The reports on the first `k` lines, line after line.
pub open spec fn reports_upto(ls: Seq<Seq<u8>>, k: int, max: usize, lang: Language) -> Seq<
    ReportView,
>
    decreases k,
{
    if k <= 0 {
        Seq::empty()
    } else {
        reports_upto(ls, k - 1, max, lang) + line_reports(
            ls[k - 1],
            line_before(ls, k - 1),
            k,
            blank_run(ls, k - 1),
            max,
            lang,
        )
    }
}

/// The line as it is written back: fixed in fix mode, unchanged otherwise.
pub open spec fn output_line(l: Seq<u8>, lang: Language, fix: bool) -> Seq<u8> {
    if fix {
        fixed_line(l, lang)
    } else {
        l
    }
}

/// The first `k` output lines, each followed by `'\n'`.
pub open spec fn output_upto(ls: Seq<Seq<u8>>, k: int, lang: Language, fix: bool) -> Seq<u8>
    decreases k,
{
    if k <= 0 {
        Seq::empty()
    } else {
        output_upto(ls, k - 1, lang, fix) + output_line(ls[k - 1], lang, fix) + seq![0x0au8]
    }
}

/// How many of the first `k` lines a fix changed.
pub open spec fn fixed_upto(ls: Seq<Seq<u8>>, k: int, lang: Language, fix: bool) -> nat
    decreases k,
{
    if k <= 0 {
        0
    } else {
        fixed_upto(ls, k - 1, lang, fix) + if fix && line_needs_fix(ls[k - 1], lang) {
            1nat
        } else {
            0nat
        }
    }
}

pub proof fn lemma_fixed_upto_bound(ls: Seq<Seq<u8>>, k: int, lang: Language, fix: bool)
    ensures
        fixed_upto(ls, k, lang, fix) <= if k < 0 {
            0
        } else {
            k
        },
    decreases k,
{
    if k > 0 {
        lemma_fixed_upto_bound(ls, k - 1, lang, fix);
    }
}

pub open spec fn ends_with_newline(s: Seq<u8>) -> bool {
    s.len() > 0 && s.last() == 0x0a
}

/// The content as it is written back: the output lines joined by `'\n'`,
/// with a final `'\n'` only when the content had one.
pub open spec fn spec_new_content(c: Seq<u8>, lang: Language, fix: bool) -> Seq<u8> {
    let ls = spec_split_lines(c);
    let out = output_upto(ls, ls.len() as int, lang, fix);
    if !ends_with_newline(c) && ends_with_newline(out) {
        out.drop_last()
    } else {
        out
    }
}

/// All reports on the content.
pub open spec fn spec_reports(c: Seq<u8>, max: usize, lang: Language) -> Seq<ReportView> {
    let ls = spec_split_lines(c);
    reports_upto(ls, ls.len() as int, max, lang)
}

/// How many lines of the content a fix changes (none unless in fix mode).
pub open spec fn spec_fixed_lines(c: Seq<u8>, lang: Language, fix: bool) -> nat {
    let ls = spec_split_lines(c);
    fixed_upto(ls, ls.len() as int, lang, fix)
}

/// What linting one file's content yields.
pub struct LintOutcome {
    /// The findings, line after line.
    pub reports: Vec<LintReport>,
    /// The content with the fixes applied (the content itself unless in fix
    /// mode).
    pub new_content: Vec<u8>,
    /// How many lines a fix changed.
    pub fixed_lines: usize,
    /// Whether the file must be written back.
    pub needs_fix: bool,
}

/// Lints the content of a file whose extension is `ext`; in fix mode also
/// computes the content with its fixes applied.
pub fn lint_content(content: &[u8], ext: &str, max_line_length: usize, fix: bool) -> (out:
    LintOutcome)
    ensures
        views(out.reports@) == spec_reports(content@, max_line_length, spec_language(ext@)),
        out.new_content@ == spec_new_content(content@, spec_language(ext@), fix),
        out.fixed_lines == spec_fixed_lines(content@, spec_language(ext@), fix),
        out.needs_fix == (out.fixed_lines > 0),
{
    let lang = language_of(ext);
    let lines = split_lines(content);
    let ghost ls = spec_split_lines(content@);
    let mut reports: Vec<LintReport> = Vec::new();
    let mut new_content: Vec<u8> = Vec::new();
    let mut needs_fix = false;
    let mut fixed_lines: usize = 0;
    let mut blank_count: usize = 0;
    let empty: &[u8] = &content[0..0];
    let mut prev_line: &[u8] = empty;
    let mut idx: usize = 0;
    assert(views(reports@) =~= Seq::<ReportView>::empty());
    assert(prev_line@ =~= Seq::<u8>::empty());
    while idx < lines.len()
        invariant
            slice_views(lines@) == ls,
            idx <= lines@.len(),
            views(reports@) == reports_upto(ls, idx as int, max_line_length, lang),
            new_content@ == output_upto(ls, idx as int, lang, fix),
            fixed_lines == fixed_upto(ls, idx as int, lang, fix),
            needs_fix == (fixed_lines > 0),
            lang == Language::Python ==> blank_count == blank_run(ls, idx as int),
            lang != Language::Python ==> blank_count == 0,
            prev_line@ == line_before(ls, idx as int),
        decreases lines@.len() - idx,
    {
        let line: &[u8] = lines[idx];
        assert(line@ == ls[idx as int]);
        let line_num = idx + 1;
        proof {
            lemma_blank_run_bound(ls, idx as int);
            lemma_fixed_upto_bound(ls, idx as int, lang, fix);
        }
        let mut line_reps = check_line(
            line,
            prev_line,
            line_num,
            blank_count,
            max_line_length,
            lang,
        );
        // Only the Python rules read the count of blank lines.
        assert(line_reports(
            line@,
            prev_line@,
            line_num as int,
            blank_count as nat,
            max_line_length,
            lang,
        ) == line_reports(
            line@,
            prev_line@,
            line_num as int,
            blank_run(ls, idx as int),
            max_line_length,
            lang,
        ));
        let ghost before = reports@;
        let ghost added = line_reps@;
        reports.append(&mut line_reps);
        proof {
            lemma_views_append(before, added);
        }
        let trimmed = trim(line);
        let is_blank = trimmed.len() == 0;
        if lang == Language::Python {
            if is_blank {
                blank_count = blank_count + 1;
            } else {
                blank_count = 0;
            }
        }
        if fix {
            let (fixed, line_fixed) = fix_line(line, lang);
            if line_fixed {
                fixed_lines = fixed_lines + 1;
                needs_fix = true;
            }
            append_bytes(&mut new_content, fixed.as_slice());
        } else {
            append_bytes(&mut new_content, line);
        }
        new_content.push(0x0a);
        prev_line = line;
        idx = idx + 1;
    }
    if !(content.len() > 0 && content[content.len() - 1] == 0x0a) && new_content.len() > 0
        && new_content[new_content.len() - 1] == 0x0a {
        new_content.pop();
    }
    LintOutcome { reports, new_content, fixed_lines, needs_fix }
}

/// What linting one file yields for the command line.
pub struct FileAnalysis {
    /// One formatted line per report.
    pub messages: Vec<String>,
    /// How many lines a fix changed.
    pub fixed_lines: usize,
    /// The content to write back to the file, when in fix mode a fix
    /// changed it.
    pub rewrite: Option<Vec<u8>>,
}

/// `out` is what linting `content`, from a file with extension `ext` shown
/// as `path`, yields: one message per report, each formatted from that
/// report; the number of lines a fix changed; and, exactly when in fix mode a
/// fix applied, the fixed content to write back.
pub open spec fn analysis_of(
    out: FileAnalysis,
    content: Seq<u8>,
    ext: Seq<char>,
    path: Seq<char>,
    max_line_length: usize,
    fix: bool,
) -> bool {
    let rs = spec_reports(content, max_line_length, spec_language(ext));
    &&& out.messages@.len() == rs.len()
    &&& forall|i: int|
        0 <= i < out.messages@.len() ==> formatted_exactly(#[trigger] rs[i], path, out.messages@[i]@)
    &&& out.fixed_lines == spec_fixed_lines(content, spec_language(ext), fix)
    &&& out.rewrite is Some <==> fix && out.fixed_lines > 0
    &&& out.rewrite matches Some(v) ==> v@ == spec_new_content(content, spec_language(ext), fix)
}

/// Lints the content of the file shown as `path`, whose extension is `ext`:
/// the formatted reports, the number of lines fixed and, in fix mode when a
/// fix applied, the content to write back.
pub fn analyze_and_fix(
    content: &[u8],
    ext: &str,
    path: &str,
    max_line_length: usize,
    fix: bool,
) -> (out: FileAnalysis)
    ensures
        analysis_of(out, content@, ext@, path@, max_line_length, fix),
{
    let outcome = lint_content(content, ext, max_line_length, fix);
    let ghost rs = spec_reports(content@, max_line_length, spec_language(ext@));
    let mut messages: Vec<String> = Vec::new();
    let mut i: usize = 0;
    while i < outcome.reports.len()
        invariant
            views(outcome.reports@) == rs,
            i <= outcome.reports@.len(),
            messages@.len() == i,
            forall|j: int| 0 <= j < i ==> formatted_exactly(#[trigger] rs[j], path@, messages@[j]@),
        decreases outcome.reports@.len() - i,
    {
        let m = outcome.reports[i].format(path);
        assert(outcome.reports@[i as int]@ == rs[i as int]);
        messages.push(m);
        i = i + 1;
    }
    let rewrite = if fix && outcome.needs_fix {
        Some(outcome.new_content)
    } else {
        None
    };
    FileAnalysis { messages, fixed_lines: outcome.fixed_lines, rewrite }
}

} // verus!
