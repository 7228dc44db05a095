use vstd::prelude::*;
use vstd::string::*;

use crate::bytes::{
    find_first, first_match, lemma_trail_run_bound, spec_contains,
    spec_starts_with, starts_with, trail_run, trailing_run, ByteClass,
};
use crate::language::Language;
use crate::rules::{has_trailing_blank, lit, trailing_blank};

verus! {

/// Appends the bytes of `s` to `v`.
pub fn append_bytes(v: &mut Vec<u8>, s: &[u8])
    ensures
        final(v)@ == old(v)@ + s@,
{
    let ghost start = v@;
    let mut i: usize = 0;
    while i < s.len()
        invariant
            i <= s@.len(),
            v@ == start + s@.subrange(0, i as int),
        decreases s@.len() - i,
    {
        v.push(s[i]);
        i = i + 1;
        assert(v@ =~= start + s@.subrange(0, i as int));
    }
    assert(s@.subrange(0, s@.len() as int) =~= s@);
}

/// `l` with the first occurrence of the non-empty `pat` replaced by `rep`;
/// `l` itself when `pat` does not occur.
pub open spec fn replace_first(l: Seq<u8>, pat: Seq<u8>, rep: Seq<u8>) -> Seq<u8> {
    if spec_contains(l, pat) {
        let i = first_match(l, pat);
        l.subrange(0, i) + rep + l.subrange(i + pat.len(), l.len() as int)
    } else {
        l
    }
}

pub fn replace_first_exec(l: &[u8], pat: &[u8], rep: &[u8]) -> (out: Vec<u8>)
    ensures
        out@ == replace_first(l@, pat@, rep@),
{
    let mut out: Vec<u8> = Vec::new();
    if pat.len() == 0 {
        append_bytes(&mut out, l);
        assert(out@ =~= l@);
        return out;
    }
    match find_first(l, pat) {
        Some(i) => {
            let len = l.len();
            assert(i + pat@.len() <= len);
            append_bytes(&mut out, &l[0..i]);
            append_bytes(&mut out, rep);
            append_bytes(&mut out, &l[i + pat.len()..l.len()]);
        },
        None => {
            append_bytes(&mut out, l);
            assert(out@ =~= l@);
        },
    }
    out
}

/// The line without its trailing spaces and tabs.
pub open spec fn strip_trailing_blank(l: Seq<u8>) -> Seq<u8> {
    l.subrange(0, l.len() - trail_run(l, ByteClass::Blank))
}

/// The line after the trailing-whitespace fix.
pub open spec fn fix_trailing(l: Seq<u8>) -> Seq<u8> {
    if has_trailing_blank(l) {
        strip_trailing_blank(l)
    } else {
        l
    }
}

/// The Python fix: the first `== None` becomes `is None`, then the first
/// `!= None` becomes `is not None`.
pub open spec fn fix_none(a: Seq<u8>) -> Seq<u8> {
    replace_first(
        replace_first(a, lit("== None"), lit("is None")),
        lit("!= None"),
        lit("is not None"),
    )
}

/// The script fix: a line that begins with `var ` begins with `let ` instead.
pub open spec fn fix_var(b: Seq<u8>) -> Seq<u8> {
    if spec_starts_with(b, lit("var ")) {
        lit("let ") + b.subrange(lit("var ").len() as int, b.len() as int)
    } else {
        b
    }
}

/// The line as `--fix` rewrites it.
pub open spec fn fixed_line(l: Seq<u8>, lang: Language) -> Seq<u8> {
    let a = fix_trailing(l);
    let b = if lang == Language::Python {
        fix_none(a)
    } else {
        a
    };
    if lang == Language::Script {
        fix_var(b)
    } else {
        b
    }
}

/// Whether one of the fixes applies to the line.
pub open spec fn line_needs_fix(l: Seq<u8>, lang: Language) -> bool {
    let a = fix_trailing(l);
    let b = if lang == Language::Python {
        fix_none(a)
    } else {
        a
    };
    ||| has_trailing_blank(l)
    ||| lang == Language::Python && spec_contains(a, lit("== None"))
    ||| lang == Language::Python && spec_contains(
        replace_first(a, lit("== None"), lit("is None")),
        lit("!= None"),
    )
    ||| lang == Language::Script && spec_starts_with(b, lit("var "))
}

/// Applies the fixes of `lang` to one line; also says whether any applied.
pub fn fix_line(line: &[u8], lang: Language) -> (res: (Vec<u8>, bool))
    ensures
        res.0@ == fixed_line(line@, lang),
        res.1 == line_needs_fix(line@, lang),
{
    let mut fixed: Vec<u8> = Vec::new();
    let mut line_fixed = false;
    let has_trailing = trailing_blank(line);
    if has_trailing {
        let t = trailing_run(line, ByteClass::Blank);
        proof {
            lemma_trail_run_bound(line@, ByteClass::Blank);
        }
        append_bytes(&mut fixed, &line[0..line.len() - t]);
        line_fixed = true;
    } else {
        append_bytes(&mut fixed, line);
        assert(fixed@ =~= line@);
    }
    if lang == Language::Python {
        let eq = crate::bytes::contains(fixed.as_slice(), "== None".as_bytes());
        let first = replace_first_exec(fixed.as_slice(), "== None".as_bytes(), "is None".as_bytes());
        let ne = crate::bytes::contains(first.as_slice(), "!= None".as_bytes());
        let second = replace_first_exec(
            first.as_slice(),
            "!= None".as_bytes(),
            "is not None".as_bytes(),
        );
        if eq || ne {
            line_fixed = true;
        }
        fixed = second;
    }
    if lang == Language::Script && starts_with(fixed.as_slice(), "var ".as_bytes()) {
        let mut out: Vec<u8> = Vec::new();
        append_bytes(&mut out, "let ".as_bytes());
        let skip = "var ".as_bytes().len();
        append_bytes(&mut out, &fixed.as_slice()[skip..fixed.len()]);
        fixed = out;
        line_fixed = true;
    }
    (fixed, line_fixed)
}

} // verus!
