use colored::Colorize;
use vstd::prelude::*;
use vstd::string::*;

verus! {

/// The character of a decimal digit.
pub open spec fn digit_char(d: int) -> char {
    (48 + d) as char
}

/// Decimal notation of `n`, without sign or leading zeros.
pub open spec fn decimal(n: nat) -> Seq<char>
    decreases n,
{
    if n < 10 {
        seq![digit_char(n as int)]
    } else {
        decimal(n / 10).push(digit_char((n % 10) as int))
    }
}

fn digit_str(d: usize) -> (s: &'static str)
    requires
        d < 10,
    ensures
        s@ == seq![digit_char(d as int)],
{
    match d {
        0 => { proof { reveal_strlit("0"); } "0" },
        1 => { proof { reveal_strlit("1"); } "1" },
        2 => { proof { reveal_strlit("2"); } "2" },
        3 => { proof { reveal_strlit("3"); } "3" },
        4 => { proof { reveal_strlit("4"); } "4" },
        5 => { proof { reveal_strlit("5"); } "5" },
        6 => { proof { reveal_strlit("6"); } "6" },
        7 => { proof { reveal_strlit("7"); } "7" },
        8 => { proof { reveal_strlit("8"); } "8" },
        _ => { proof { reveal_strlit("9"); } "9" },
    }
}

/// Decimal notation of `n`, as `to_string` writes it.
pub fn decimal_string(n: usize) -> (s: String)
    ensures
        s@ == decimal(n as nat),
    decreases n,
{
    if n < 10 {
        String::from_str(digit_str(n))
    } else {
        let mut s = decimal_string(n / 10);
        s.append(digit_str(n % 10));
        s
    }
}

/// What a report says, as mathematical values.
pub struct ReportView {
    pub code: Seq<char>,
    pub message: Seq<char>,
    pub line: int,
    pub col: int,
    pub fixable: bool,
}

/// One finding of the linter: a rule code, a message, the one-based line and
/// column it points at, and whether `--fix` rewrites it.
#[derive(Debug, Clone)]
pub struct LintReport {
    pub code: &'static str,
    pub message: String,
    pub line: usize,
    pub col: usize,
    pub fixable: bool,
}

impl View for LintReport {
    type V = ReportView;

    open spec fn view(&self) -> ReportView {
        ReportView {
            code: self.code@,
            message: self.message@,
            line: self.line as int,
            col: self.col as int,
            fixable: self.fixable,
        }
    }
}

pub open spec fn report_view(
    code: Seq<char>,
    message: Seq<char>,
    line: int,
    col: int,
    fixable: bool,
) -> ReportView {
    ReportView { code, message, line, col, fixable }
}

/// The views of a sequence of reports.
pub open spec fn views(v: Seq<LintReport>) -> Seq<ReportView> {
    v.map_values(|r: LintReport| r@)
}

/// `acc` with `r` appended when `c` holds.
pub open spec fn push_if(acc: Seq<ReportView>, c: bool, r: ReportView) -> Seq<ReportView> {
    if c {
        acc.push(r)
    } else {
        acc
    }
}

pub fn push_report(
    reports: &mut Vec<LintReport>,
    code: &'static str,
    message: String,
    line: usize,
    col: usize,
    fixable: bool,
)
    ensures
        views(final(reports)@) == views(old(reports)@).push(
            report_view(code@, message@, line as int, col as int, fixable),
        ),
{
    let ghost before = reports@;
    let r = LintReport { code, message, line, col, fixable };
    reports.push(r);
    assert(views(reports@) =~= views(before).push(r@));
}

pub proof fn lemma_views_append(a: Seq<LintReport>, b: Seq<LintReport>)
    ensures
        views(a + b) == views(a) + views(b),
{
    assert(views(a + b) =~= views(a) + views(b));
}

/// The terminal escape that turns on the foreground colour `code`.
pub open spec fn color_on(code: Seq<char>) -> Seq<char> {
    seq!['\u{1b}', '['] + code + seq!['m']
}

/// The terminal escape that turns colours off.
pub open spec fn color_off() -> Seq<char> {
    seq!['\u{1b}', '[', '0', 'm']
}

/// `s` with the escape `color_on(code)` put back after every escape that
/// turns colours off, so that text painted inside stays in colour `code`
/// after it.
pub open spec fn restyle_resets(s: Seq<char>, code: Seq<char>) -> Seq<char>
    decreases s.len(),
{
    if s.len() == 0 {
        Seq::empty()
    } else if s.len() >= 4 && s.subrange(0, 4) == color_off() {
        color_off() + color_on(code) + restyle_resets(s.subrange(4, s.len() as int), code)
    } else {
        seq![s[0]] + restyle_resets(s.drop_first(), code)
    }
}

/// `out` is `s` as `colored` writes it in colour or style `code`: bare when
/// colouring is off (by the environment or the terminal); when it is on,
/// wrapped in escapes, with the colour turned on again after each escape in
/// `s` that turns colours off.
pub open spec fn painted(s: Seq<char>, code: Seq<char>, out: Seq<char>) -> bool {
    out == s || out == color_on(code) + restyle_resets(s, code) + color_off()
}

/// `s` holds no escape character.
pub open spec fn has_no_escape(s: Seq<char>) -> bool {
    forall|i: int| 0 <= i < s.len() ==> s[i] != '\u{1b}'
}

/// Text without escape characters is painted by wrapping it whole.
pub proof fn lemma_plain_text_painted(s: Seq<char>, code: Seq<char>)
    requires
        has_no_escape(s),
    ensures
        restyle_resets(s, code) == s,
    decreases s.len(),
{
    if s.len() > 0 {
        if s.len() >= 4 {
            assert(s.subrange(0, 4)[0] == s[0]);
            assert(s.subrange(0, 4) != color_off());
        }
        let d = s.drop_first();
        assert forall|i: int| 0 <= i < d.len() implies d[i] != '\u{1b}' by {
            assert(d[i] == s[i + 1]);
        }
        lemma_plain_text_painted(d, code);
        assert(seq![s[0]] + d =~= s);
    }
}

pub open spec fn yellow_code() -> Seq<char> {
    seq!['3', '3']
}

pub open spec fn red_code() -> Seq<char> {
    seq!['3', '1']
}

pub open spec fn cyan_code() -> Seq<char> {
    seq!['3', '6']
}

/// `colored`'s `yellow` on a `&str`, written out with `to_string`. Whether
/// colours are on depends on the environment and on whether standard output
/// is a terminal, so the contract allows both outcomes.
#[verifier::external_body]
pub(crate) fn paint_yellow(s: &str) -> (out: String)
    ensures
        painted(s@, yellow_code(), out@),
{
    s.yellow().to_string()
}

/// `colored`'s `red` on a `&str`, written out with `to_string`; the contract
/// is that of `paint_yellow` with the red colour code.
#[verifier::external_body]
pub(crate) fn paint_red(s: &str) -> (out: String)
    ensures
        painted(s@, red_code(), out@),
{
    s.red().to_string()
}

/// `colored`'s `cyan` on a `&str`, written out with `to_string`; the contract
/// is that of `paint_yellow` with the cyan colour code.
#[verifier::external_body]
pub(crate) fn paint_cyan(s: &str) -> (out: String)
    ensures
        painted(s@, cyan_code(), out@),
{
    s.cyan().to_string()
}

/// The icon in front of a report: a warning sign for what `--fix` repairs,
/// a cross otherwise.
pub open spec fn icon(fixable: bool) -> Seq<char> {
    if fixable {
        "\u{26a0}"@
    } else {
        "\u{2716}"@
    }
}

pub open spec fn icon_color(fixable: bool) -> Seq<char> {
    if fixable {
        yellow_code()
    } else {
        red_code()
    }
}

/// `icon path:line:col [code] message`, with the icon and the code as given.
pub open spec fn report_text(
    icon_text: Seq<char>,
    path: Seq<char>,
    r: ReportView,
    code_text: Seq<char>,
) -> Seq<char> {
    icon_text + " "@ + path + ":"@ + decimal(r.line as nat) + ":"@ + decimal(r.col as nat)
        + " ["@ + code_text + "] "@ + r.message
}

/// `s` as `colored` writes it in colour or style `code`, when colouring is
/// on (`coloured`) or off.
pub open spec fn paint_choice(s: Seq<char>, code: Seq<char>, coloured: bool) -> Seq<char> {
    if coloured {
        color_on(code) + restyle_resets(s, code) + color_off()
    } else {
        s
    }
}

/// Report `r` found in the file at `path`, laid out with its icon coloured
/// or not (`icon_on`) and its code coloured or not (`code_on`).
pub open spec fn message_text(r: ReportView, path: Seq<char>, icon_on: bool, code_on: bool) -> Seq<
    char,
> {
    report_text(
        paint_choice(icon(r.fixable), icon_color(r.fixable), icon_on),
        path,
        r,
        paint_choice(r.code, cyan_code(), code_on),
    )
}

/// `s` is how `format` writes report `r` found in the file at `path`: the
/// icon and the code each painted in their colour, or bare.
pub open spec fn formatted_exactly(r: ReportView, path: Seq<char>, s: Seq<char>) -> bool {
    exists|icon_on: bool, code_on: bool| s == #[trigger] message_text(r, path, icon_on, code_on)
}

/// What `painted` allows is one of the two choices of `paint_choice`.
pub proof fn lemma_painted_choice(s: Seq<char>, code: Seq<char>, out: Seq<char>)
    requires
        painted(s, code, out),
    ensures
        out == paint_choice(s, code, out != s),
{
}


impl LintReport {
    /// The report laid out with the painted icon and code given.
    pub fn format_with(&self, icon_text: &str, path: &str, code_text: &str) -> (s: String)
        ensures
            s@ == report_text(icon_text@, path@, self@, code_text@),
    {
        let mut s = String::from_str(icon_text);
        s.append(" ");
        s.append(path);
        s.append(":");
        let line = decimal_string(self.line);
        s.append(line.as_str());
        s.append(":");
        let col = decimal_string(self.col);
        s.append(col.as_str());
        s.append(" [");
        s.append(code_text);
        s.append("] ");
        s.append(self.message.as_str());
        s
    }

    /// One line of output for the report found in the file shown as `path`.
    pub fn format(&self, path: &str) -> (s: String)
        ensures
            formatted_exactly(self@, path@, s@),
    {
        let icon_text = if self.fixable {
            paint_yellow("\u{26a0}")
        } else {
            paint_red("\u{2716}")
        };
        let code_text = paint_cyan(self.code);
        let s = self.format_with(icon_text.as_str(), path, code_text.as_str());
        proof {
            let icon_on = icon_text@ != icon(self.fixable);
            let code_on = code_text@ != self.code@;
            lemma_painted_choice(icon(self.fixable), icon_color(self.fixable), icon_text@);
            lemma_painted_choice(self.code@, cyan_code(), code_text@);
            assert(s@ == message_text(self@, path@, icon_on, code_on));
        }
        s
    }
}

} // verus!
