use colored::Colorize;
use vstd::prelude::*;
use vstd::string::*;
use vstd::utf8::encode_utf8;

use crate::language::str_is;
use crate::report::{
    decimal, decimal_string, paint_yellow, painted, yellow_code,
};

verus! {

// ---------------------------------------------------------------------------
// Lines, case and substrings of text, as `str` defines them.

/// A line ending in `"\r"` loses that character.
pub open spec fn strip_cr(l: Seq<char>) -> Seq<char> {
    if l.len() > 0 && l.last() == '\r' {
        l.drop_last()
    } else {
        l
    }
}

/// Offset of the first `'\n'`, or the length when there is none.
pub open spec fn char_newline_index(c: Seq<char>) -> nat
    decreases c.len(),
{
    if c.len() == 0 || c[0] == '\n' {
        0
    } else {
        1 + char_newline_index(c.drop_first())
    }
}

/// The lines of a text as `str::lines` yields them: split at `"\n"` and at
/// `"\r\n"`, with no empty line after a final line ending; a lone `'\r'` at
/// the very end stays.
pub open spec fn text_lines(c: Seq<char>) -> Seq<Seq<char>>
    decreases c.len(),
{
    if c.len() == 0 {
        Seq::empty()
    } else {
        let i = char_newline_index(c);
        if i < c.len() {
            seq![strip_cr(c.subrange(0, i as int))] + text_lines(
                c.subrange(i as int + 1, c.len() as int),
            )
        } else {
            seq![c]
        }
    }
}

/// Calls `str::lines` and collects the lines, which are the pieces that the
/// standard library documents: `text_lines` states them.
#[verifier::external_body]
fn str_lines(s: &str) -> (r: Vec<&str>)
    ensures
        r@.map_values(|l: &str| l@) == text_lines(s@),
{
    s.lines().collect()
}

/// The full Unicode lower case of a text, as `str::to_lowercase` computes it.
pub uninterp spec fn lowercase_of(s: Seq<char>) -> Seq<char>;

/// Calls `str::to_lowercase`, whose result depends on the text alone and is
/// named `lowercase_of`; the Unicode case tables are not stated.
#[verifier::external_body]
fn to_lowercase(s: &str) -> (r: String)
    ensures
        r@ == lowercase_of(s@),
{
    s.to_lowercase()
}

/// `h` holds `n` as a run of characters (an empty `n` always).
pub open spec fn text_contains(h: Seq<char>, n: Seq<char>) -> bool {
    exists|i: int| 0 <= i && i + n.len() <= h.len() && #[trigger] h.subrange(i, i + n.len()) == n
}

/// Calls `str::contains` with a `&str` pattern, which holds exactly when the
/// pattern occurs as a substring.
#[verifier::external_body]
fn str_contains(h: &str, n: &str) -> (r: bool)
    ensures
        r == text_contains(h@, n@),
{
    h.contains(n)
}

// ---------------------------------------------------------------------------
// Colours.

pub open spec fn dimmed_code() -> Seq<char> {
    seq!['2']
}

pub open spec fn blue_code() -> Seq<char> {
    seq!['3', '4']
}

pub open spec fn magenta_code() -> Seq<char> {
    seq!['3', '5']
}

pub open spec fn bold_red_code() -> Seq<char> {
    seq!['1', ';', '3', '1']
}

/// `colored`'s `dimmed` on a `&str`, written out with `to_string`: the text
/// bare, or wrapped in the dim escape, as the environment decides.
#[verifier::external_body]
fn paint_dimmed(s: &str) -> (out: String)
    ensures
        painted(s@, dimmed_code(), out@),
{
    s.dimmed().to_string()
}

/// `colored`'s `blue` on a `&str`, written out with `to_string`.
#[verifier::external_body]
fn paint_blue(s: &str) -> (out: String)
    ensures
        painted(s@, blue_code(), out@),
{
    s.blue().to_string()
}

/// `colored`'s `magenta` on a `&str`, written out with `to_string`.
#[verifier::external_body]
fn paint_magenta(s: &str) -> (out: String)
    ensures
        painted(s@, magenta_code(), out@),
{
    s.magenta().to_string()
}

/// `colored`'s `red` then `bold` on a `&str`, written out with `to_string`:
/// the style and the colour go into one escape, bold first.
#[verifier::external_body]
fn paint_bold_red(s: &str) -> (out: String)
    ensures
        painted(s@, bold_red_code(), out@),
{
    s.red().bold().to_string()
}

// ---------------------------------------------------------------------------
// What a line holds.

/// The characters that `char::is_whitespace` accepts (Unicode White_Space).
pub open spec fn is_white_space(c: char) -> bool {
    ||| '\u{9}' <= c <= '\u{d}'
    ||| c == ' '
    ||| c == '\u{85}'
    ||| c == '\u{a0}'
    ||| c == '\u{1680}'
    ||| '\u{2000}' <= c <= '\u{200a}'
    ||| c == '\u{2028}'
    ||| c == '\u{2029}'
    ||| c == '\u{202f}'
    ||| c == '\u{205f}'
    ||| c == '\u{3000}'
}

fn white_space(c: char) -> (r: bool)
    ensures
        r == is_white_space(c),
{
    let u = c as u32;
    (0x9 <= u && u <= 0xd) || u == 0x20 || u == 0x85 || u == 0xa0 || u == 0x1680 || (0x2000 <= u
        && u <= 0x200a) || u == 0x2028 || u == 0x2029 || u == 0x202f || u == 0x205f || u == 0x3000
}

/// Number of white-space characters at the start of `l`.
pub open spec fn lead_white(l: Seq<char>) -> nat
    decreases l.len(),
{
    if l.len() > 0 && is_white_space(l[0]) {
        1 + lead_white(l.drop_first())
    } else {
        0
    }
}

proof fn lemma_lead_white(l: Seq<char>, k: int)
    requires
        0 <= k <= l.len(),
        forall|j: int| 0 <= j < k ==> is_white_space(#[trigger] l[j]),
        k == l.len() || !is_white_space(l[k]),
    ensures
        lead_white(l) == k,
    decreases k,
{
    if k > 0 {
        assert forall|j: int| 0 <= j < k - 1 implies is_white_space(#[trigger] l.drop_first()[j]) by {
            assert(l.drop_first()[j] == l[j + 1]);
        }
        if k < l.len() {
            assert(l.drop_first()[k - 1] == l[k]);
        }
        lemma_lead_white(l.drop_first(), k - 1);
    }
}

/// Once leading white space is skipped, the line opens a `#` or `//`
/// comment.
pub open spec fn is_comment_line(l: Seq<char>) -> bool {
    let k = lead_white(l) as int;
    (k < l.len() && l[k] == '#') || (k + 1 < l.len() && l[k] == '/' && l[k + 1] == '/')
}

fn comment_line(l: &str) -> (r: bool)
    ensures
        r == is_comment_line(l@),
{
    let n = l.unicode_len();
    let mut k: usize = 0;
    while k < n && white_space(l.get_char(k))
        invariant
            n == l@.len(),
            k <= n,
            forall|j: int| 0 <= j < k ==> is_white_space(#[trigger] l@[j]),
        decreases n - k,
    {
        k = k + 1;
    }
    proof {
        lemma_lead_white(l@, k as int);
    }
    (k < n && l.get_char(k) == '#') || (k < n && n - k > 1 && l.get_char(k) == '/' && l.get_char(
        k + 1,
    ) == '/')
}

/// The lower-cased line calls something that prints debug output.
pub open spec fn has_debug_output(lower: Seq<char>) -> bool {
    ||| text_contains(lower, "print("@)
    ||| text_contains(lower, "println!"@)
    ||| text_contains(lower, "dbg!"@)
    ||| text_contains(lower, "console.log"@)
}

/// The lower-cased line holds the prefix of a known kind of API key.
pub open spec fn has_key_prefix(lower: Seq<char>) -> bool {
    text_contains(lower, "sk-"@) || text_contains(lower, "akia"@)
}

/// The lower-cased line uses an outdated OpenAI or LangChain API.
pub open spec fn has_deprecated_api(lower: Seq<char>) -> bool {
    text_contains(lower, "openai.chatcompletion"@) || text_contains(lower, "langchain.llms"@)
}

/// What the scan looks for in a lower-cased line.
pub struct LineFlags {
    pub debug_output: bool,
    pub key_prefix: bool,
    pub deprecated_api: bool,
}

/// Checks a lower-cased line for debug output, API key prefixes and outdated
/// APIs.
pub fn line_flags(lower: &str) -> (r: LineFlags)
    ensures
        r.debug_output == has_debug_output(lower@),
        r.key_prefix == has_key_prefix(lower@),
        r.deprecated_api == has_deprecated_api(lower@),
{
    let l = lower;
    LineFlags {
        debug_output: str_contains(l, "print(") || str_contains(l, "println!") || str_contains(
            l,
            "dbg!",
        ) || str_contains(l, "console.log"),
        key_prefix: str_contains(l, "sk-") || str_contains(l, "akia"),
        deprecated_api: str_contains(l, "openai.chatcompletion") || str_contains(
            l,
            "langchain.llms",
        ),
    }
}

/// The kinds of finding of the scan.
pub enum Finding {
    /// A line longer than the limit, with its length in bytes.
    LongLine(nat),
    DebugOutput,
    SecretKey,
    DeprecatedApi,
}

/// Length in bytes of a line, as `str::len` gives it.
pub open spec fn byte_len(l: Seq<char>) -> nat {
    (encode_utf8(l).len() as usize) as nat
}

/// What the scan finds on one line, in order.
pub open spec fn line_findings(l: Seq<char>, max: usize) -> Seq<Finding> {
    let len = byte_len(l);
    let first = if len > max {
        seq![Finding::LongLine(len)]
    } else {
        Seq::empty()
    };
    if is_comment_line(l) {
        first
    } else {
        let lower = lowercase_of(l);
        first + (if has_debug_output(lower) {
            seq![Finding::DebugOutput]
        } else {
            Seq::empty()
        }) + (if has_key_prefix(lower) {
            seq![Finding::SecretKey]
        } else {
            Seq::empty()
        }) + (if has_deprecated_api(lower) {
            seq![Finding::DeprecatedApi]
        } else {
            Seq::empty()
        })
    }
}

/// The findings of the first `k` lines, each with its one-based line number.
pub open spec fn findings_upto(ls: Seq<Seq<char>>, k: int, max: usize) -> Seq<(int, Finding)>
    decreases k,
{
    if k <= 0 {
        Seq::empty()
    } else {
        findings_upto(ls, k - 1, max) + line_findings(ls[k - 1], max).map_values(
            |f: Finding| (k, f),
        )
    }
}

/// What the scan finds in a text.
pub open spec fn text_findings(c: Seq<char>, max: usize) -> Seq<(int, Finding)> {
    findings_upto(text_lines(c), text_lines(c).len() as int, max)
}

/// `s` is finding `f` on line `n` of the file shown as `path`, written with
/// `p` for the path and `w` for the label, which are the path dimmed and the
/// label in its colour, each bare when colouring is off.
pub open spec fn rendered_with(
    f: Finding,
    path: Seq<char>,
    n: int,
    s: Seq<char>,
    p: Seq<char>,
    w: Seq<char>,
) -> bool {
    &&& painted(path, dimmed_code(), p)
    &&& match f {
        Finding::LongLine(len) => painted("Long line"@, yellow_code(), w) && s == p + ":"@
            + decimal(n as nat) + " "@ + w + " ("@ + decimal(len) + " chars)"@,
        Finding::DebugOutput => painted("Debug output found"@, blue_code(), w) && s == p + ":"@
            + decimal(n as nat) + " "@ + w + " -> commented out"@,
        Finding::SecretKey => painted("Potential Secret/API Key found!"@, bold_red_code(), w) && s
            == p + ":"@ + decimal(n as nat) + " "@ + w,
        Finding::DeprecatedApi => painted(
            "Deprecated API usage (OpenAI/LangChain)"@,
            magenta_code(),
            w,
        ) && s == p + ":"@ + decimal(n as nat) + " "@ + w,
    }
}

/// `s` is how the scan writes finding `f` on line `n` of the file shown as
/// `path`.
pub open spec fn rendered(f: Finding, path: Seq<char>, n: int, s: Seq<char>) -> bool {
    exists|p: Seq<char>, w: Seq<char>| #[trigger] rendered_with(f, path, n, s, p, w)
}

// ---------------------------------------------------------------------------
// Rewriting.

/// The line as fix mode writes it: a line with debug output (not already a
/// comment) is commented out, with `# ` in Python and `// ` elsewhere.
pub open spec fn scanned_line(l: Seq<char>, fix: bool, python: bool) -> Seq<char> {
    if fix && !is_comment_line(l) && has_debug_output(lowercase_of(l)) {
        (if python {
            "# "@
        } else {
            "// "@
        }) + l
    } else {
        l
    }
}

/// Lines joined with `'\n'` between them.
pub open spec fn join_lines(ls: Seq<Seq<char>>) -> Seq<char>
    decreases ls.len(),
{
    if ls.len() == 0 {
        Seq::empty()
    } else if ls.len() == 1 {
        ls[0]
    } else {
        join_lines(ls.drop_last()) + seq!['\n'] + ls.last()
    }
}

/// How many of the first `k` lines fix mode comments out.
pub open spec fn commented_upto(ls: Seq<Seq<char>>, k: int, fix: bool) -> nat
    decreases k,
{
    if k <= 0 {
        0
    } else {
        commented_upto(ls, k - 1, fix) + if fix && !is_comment_line(ls[k - 1])
            && has_debug_output(lowercase_of(ls[k - 1])) {
            1nat
        } else {
            0nat
        }
    }
}

/// The text as fix mode writes it back: the lines, rewritten, joined with
/// `'\n'`, and a final `'\n'` when the text had one.
pub open spec fn scan_rewrite(c: Seq<char>, fix: bool, python: bool) -> Seq<char> {
    let ls = text_lines(c);
    join_lines(ls.map_values(|l: Seq<char>| scanned_line(l, fix, python))) + if c.len() > 0
        && c.last() == '\n' {
        seq!['\n']
    } else {
        Seq::empty()
    }
}

/// What the scan of one file yields.
pub struct ScanOutcome {
    /// One formatted line per finding.
    pub reports: Vec<String>,
    /// `1` when fix mode commented out a line of the file, else `0`.
    pub files_fixed: usize,
    /// The text to write back, when fix mode commented out a line.
    pub rewrite: Option<String>,
}

fn render_long_line(path: &str, n: usize, len: usize) -> (s: String)
    ensures
        rendered(Finding::LongLine(len as nat), path@, n as int, s@),
{
    let mut s = paint_dimmed(path);
    let ghost p = s@;
    let w = paint_yellow("Long line");
    s.append(":");
    let ns = decimal_string(n);
    s.append(ns.as_str());
    s.append(" ");
    s.append(w.as_str());
    s.append(" (");
    let ls = decimal_string(len);
    s.append(ls.as_str());
    s.append(" chars)");
    proof {
        assert(painted(path@, dimmed_code(), p));
        assert(painted("Long line"@, yellow_code(), w@));
        assert(rendered_with(Finding::LongLine(len as nat), path@, n as int, s@, p, w@));
    }
    s
}

fn render_label(path: &str, n: usize, f: &Finding) -> (s: String)
    requires
        !(f is LongLine),
    ensures
        rendered(*f, path@, n as int, s@),
{
    let mut s = paint_dimmed(path);
    let ghost p = s@;
    s.append(":");
    let ns = decimal_string(n);
    s.append(ns.as_str());
    s.append(" ");
    match f {
        Finding::DebugOutput => {
            let w = paint_blue("Debug output found");
            s.append(w.as_str());
            s.append(" -> commented out");
            proof {
                assert(painted(path@, dimmed_code(), p));
                assert(painted("Debug output found"@, blue_code(), w@));
                assert(rendered_with(*f, path@, n as int, s@, p, w@));
            }
        },
        Finding::SecretKey => {
            let w = paint_bold_red("Potential Secret/API Key found!");
            s.append(w.as_str());
            proof {
                assert(painted(path@, dimmed_code(), p));
                assert(painted("Potential Secret/API Key found!"@, bold_red_code(), w@));
                assert(rendered_with(*f, path@, n as int, s@, p, w@));
            }
        },
        _ => {
            let w = paint_magenta("Deprecated API usage (OpenAI/LangChain)");
            s.append(w.as_str());
            proof {
                assert(painted(path@, dimmed_code(), p));
                assert(painted("Deprecated API usage (OpenAI/LangChain)"@, magenta_code(), w@));
                assert(rendered_with(*f, path@, n as int, s@, p, w@));
            }
        },
    }
    s
}

/// Scans one line: the formatted findings, and whether fix mode comments the
/// line out.
fn scan_line(line: &str, path: &str, n: usize, max: usize) -> (res: (Vec<String>, bool))
    ensures
        res.0@.len() == line_findings(line@, max).len(),
        forall|j: int|
            0 <= j < res.0@.len() ==> rendered(
                #[trigger] line_findings(line@, max)[j],
                path@,
                n as int,
                res.0@[j]@,
            ),
        res.1 == (!is_comment_line(line@) && has_debug_output(lowercase_of(line@))),
{
    let mut out: Vec<String> = Vec::new();
    let ghost mut fs: Seq<Finding> = Seq::empty();
    let len = line.len();
    if len > max {
        out.push(render_long_line(path, n, len));
        proof {
            fs = fs.push(Finding::LongLine(len as nat));
        }
    }
    assert(fs =~= (if byte_len(line@) > max {
        seq![Finding::LongLine(byte_len(line@))]
    } else {
        Seq::<Finding>::empty()
    }));
    if comment_line(line) {
        return (out, false);
    }
    let lower = to_lowercase(line);
    let flags = line_flags(lower.as_str());
    if flags.debug_output {
        out.push(render_label(path, n, &Finding::DebugOutput));
        proof {
            fs = fs.push(Finding::DebugOutput);
        }
    }
    if flags.key_prefix {
        out.push(render_label(path, n, &Finding::SecretKey));
        proof {
            fs = fs.push(Finding::SecretKey);
        }
    }
    if flags.deprecated_api {
        out.push(render_label(path, n, &Finding::DeprecatedApi));
        proof {
            fs = fs.push(Finding::DeprecatedApi);
        }
    }
    assert(fs =~= line_findings(line@, max));
    (out, flags.debug_output)
}

/// The lines, as fix mode rewrites them.
pub open spec fn scanned_lines(ls: Seq<Seq<char>>, fix: bool, python: bool) -> Seq<Seq<char>> {
    ls.map_values(|l: Seq<char>| scanned_line(l, fix, python))
}

/// Scans the text of the file shown as `path`, whose extension is `ext`,
/// for long lines, debug output, API keys and outdated APIs; in fix mode the
/// lines with debug output are commented out.
pub fn scan_content(
    content: &str,
    ext: &str,
    path: &str,
    max_line_len: usize,
    should_fix: bool,
) -> (out: ScanOutcome)
    ensures
        out.reports@.len() == text_findings(content@, max_line_len).len(),
        forall|i: int|
            0 <= i < out.reports@.len() ==> rendered(
                (#[trigger] text_findings(content@, max_line_len)[i]).1,
                path@,
                text_findings(content@, max_line_len)[i].0,
                out.reports@[i]@,
            ),
        out.files_fixed == if should_fix && commented_upto(
            text_lines(content@),
            text_lines(content@).len() as int,
            should_fix,
        ) > 0 {
            1usize
        } else {
            0usize
        },
        out.rewrite is Some <==> out.files_fixed == 1,
        out.rewrite matches Some(t) ==> t@ == scan_rewrite(content@, should_fix, ext@ == "py"@),
{
    let python = str_is(ext, "py");
    let lines = str_lines(content);
    let ghost ls = text_lines(content@);
    let ghost outs = scanned_lines(ls, should_fix, python);
    let mut reports: Vec<String> = Vec::new();
    let mut new_content = String::new();
    let mut fixed_lines: usize = 0;
    let mut i: usize = 0;
    while i < lines.len()
        invariant
            lines@.map_values(|l: &str| l@) == ls,
            outs == scanned_lines(ls, should_fix, python),
            i <= lines@.len(),
            reports@.len() == findings_upto(ls, i as int, max_line_len).len(),
            forall|j: int|
                0 <= j < reports@.len() ==> rendered(
                    (#[trigger] findings_upto(ls, i as int, max_line_len)[j]).1,
                    path@,
                    findings_upto(ls, i as int, max_line_len)[j].0,
                    reports@[j]@,
                ),
            new_content@ == join_lines(outs.take(i as int)),
            fixed_lines == commented_upto(ls, i as int, should_fix),
            fixed_lines <= i,
        decreases lines@.len() - i,
    {
        let line: &str = lines[i];
        assert(line@ == ls[i as int]);
        let n = i + 1;
        let (found, debug) = scan_line(line, path, n, max_line_len);
        let ghost before = reports@;
        let ghost lf = line_findings(line@, max_line_len);
        let mut k: usize = 0;
        while k < found.len()
            invariant
                k <= found@.len(),
                found@.len() == lf.len(),
                reports@.len() == before.len() + k,
                forall|j: int| 0 <= j < before.len() ==> reports@[j] == before[j],
                forall|j: int|
                    0 <= j < k ==> rendered(
                        lf[j],
                        path@,
                        n as int,
                        #[trigger] reports@[before.len() + j]@,
                    ),
                forall|j: int|
                    0 <= j < found@.len() ==> rendered(
                        #[trigger] lf[j],
                        path@,
                        n as int,
                        found@[j]@,
                    ),
            decreases found@.len() - k,
        {
            let r = String::from_str(found[k].as_str());
            reports.push(r);
            k = k + 1;
        }
        proof {
            let next = findings_upto(ls, n as int, max_line_len);
            let prev = findings_upto(ls, i as int, max_line_len);
            assert(next == prev + lf.map_values(|f: Finding| (n as int, f)));
            assert forall|j: int| 0 <= j < reports@.len() implies rendered(
                (#[trigger] next[j]).1,
                path@,
                next[j].0,
                reports@[j]@,
            ) by {
                if j < prev.len() {
                    assert(next[j] == prev[j]);
                    assert(reports@[j] == before[j]);
                } else {
                    assert(next[j] == (n as int, lf[j - prev.len()]));
                    assert(reports@[before.len() + (j - prev.len())] == reports@[j]);
                }
            }
        }
        let mut new_line = String::new();
        if debug && should_fix {
            if python {
                new_line.append("# ");
            } else {
                new_line.append("// ");
            }
            fixed_lines = fixed_lines + 1;
        }
        new_line.append(line);
        proof {
            assert(outs[i as int] == scanned_line(ls[i as int], should_fix, python));
            assert(new_line@ =~= outs[i as int]);
            let t = outs.take(i as int + 1);
            assert(t.drop_last() =~= outs.take(i as int));
            assert(t.last() == outs[i as int]);
        }
        if i > 0 {
            new_content.append("\n");
        }
        new_content.append(new_line.as_str());
        proof {
            reveal_strlit("\n");
            if i == 0 {
                assert(outs.take(1) =~= seq![outs[0]]);
            }
        }
        i = i + 1;
    }
    proof {
        assert(outs.take(lines@.len() as int) =~= outs);
    }
    let total = content.unicode_len();
    if total > 0 && content.get_char(total - 1) == '\n' {
        new_content.append("\n");
        proof {
            reveal_strlit("\n");
        }
    }
    assert(new_content@ =~= scan_rewrite(content@, should_fix, python));
    let files_fixed: usize = if should_fix && fixed_lines > 0 {
        1
    } else {
        0
    };
    let rewrite = if files_fixed == 1 {
        Some(new_content)
    } else {
        None
    };
    ScanOutcome { reports, files_fixed, rewrite }
}

} // verus!
