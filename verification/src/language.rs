use vstd::prelude::*;
use vstd::string::*;

verus! {

/// Whether two strings hold the same characters.
pub fn str_is(s: &str, lit: &str) -> (r: bool)
    ensures
        r == (s@ == lit@),
{
    let n = s.unicode_len();
    if n != lit.unicode_len() {
        return false;
    }
    let mut i: usize = 0;
    while i < n
        invariant
            n == s@.len(),
            n == lit@.len(),
            i <= n,
            forall|j: int| 0 <= j < i ==> s@[j] == lit@[j],
        decreases n - i,
    {
        if s.get_char(i) != lit.get_char(i) {
            return false;
        }
        i = i + 1;
    }
    assert(s@ =~= lit@);
    true
}

/// The kinds of source file whose own rules the linter applies.
#[derive(Clone, Copy, PartialEq, Eq, Structural, Debug)]
pub enum Language {
    Python,
    Rust,
    /// JavaScript or TypeScript.
    Script,
    Other,
}

/// The language that a file extension names.
pub open spec fn spec_language(ext: Seq<char>) -> Language {
    if ext == "py"@ {
        Language::Python
    } else if ext == "rs"@ {
        Language::Rust
    } else if ext == "js"@ || ext == "ts"@ || ext == "jsx"@ || ext == "tsx"@ {
        Language::Script
    } else {
        Language::Other
    }
}

/// The extensions of the files that a directory walk lints.
pub open spec fn spec_is_target(ext: Seq<char>) -> bool {
    ||| ext == "py"@
    ||| ext == "rs"@
    ||| ext == "js"@
    ||| ext == "ts"@
    ||| ext == "jsx"@
    ||| ext == "tsx"@
    ||| ext == "go"@
    ||| ext == "cpp"@
    ||| ext == "c"@
    ||| ext == "cc"@
    ||| ext == "h"@
    ||| ext == "java"@
    ||| ext == "cs"@
}

/// Whether a file with extension `ext` (empty when the path has none or it
/// is not UTF-8) is one that the linter looks at.
pub fn is_target_file(ext: &str) -> (r: bool)
    ensures
        r == spec_is_target(ext@),
{
    str_is(ext, "py") || str_is(ext, "rs") || str_is(ext, "js") || str_is(ext, "ts") || str_is(
        ext,
        "jsx",
    ) || str_is(ext, "tsx") || str_is(ext, "go") || str_is(ext, "cpp") || str_is(ext, "c")
        || str_is(ext, "cc") || str_is(ext, "h") || str_is(ext, "java") || str_is(ext, "cs")
}

/// Whether the extension names a Python file.
pub fn is_py(ext: &str) -> (r: bool)
    ensures
        r == (ext@ == "py"@),
{
    str_is(ext, "py")
}

/// Whether the extension names a Rust file.
pub fn is_rust(ext: &str) -> (r: bool)
    ensures
        r == (ext@ == "rs"@),
{
    str_is(ext, "rs")
}

/// Whether the extension names a JavaScript or TypeScript file.
pub fn is_js_ts(ext: &str) -> (r: bool)
    ensures
        r == (ext@ == "js"@ || ext@ == "ts"@ || ext@ == "jsx"@ || ext@ == "tsx"@),
{
    str_is(ext, "js") || str_is(ext, "ts") || str_is(ext, "jsx") || str_is(ext, "tsx")
}

/// The language of a file with extension `ext`.
pub fn language_of(ext: &str) -> (lang: Language)
    ensures
        lang == spec_language(ext@),
{
    if is_py(ext) {
        Language::Python
    } else if is_rust(ext) {
        Language::Rust
    } else if is_js_ts(ext) {
        Language::Script
    } else {
        Language::Other
    }
}

} // verus!
