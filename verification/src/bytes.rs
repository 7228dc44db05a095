use vstd::prelude::*;

verus! {

/// Classes of bytes that the lint rules skip over at the edges of a line.
#[derive(Clone, Copy, PartialEq, Eq, Debug)]
pub enum ByteClass {
    /// `' '`
    Space,
    /// `'\t'`
    Tab,
    /// `' '` or `'\t'`
    Blank,
    /// `' '`, `'\t'` or `'\r'`
    BlankOrCr,
}

pub open spec fn in_class(b: u8, c: ByteClass) -> bool {
    match c {
        ByteClass::Space => b == 0x20,
        ByteClass::Tab => b == 0x09,
        ByteClass::Blank => b == 0x20 || b == 0x09,
        ByteClass::BlankOrCr => b == 0x20 || b == 0x09 || b == 0x0d,
    }
}

/// Length of the longest prefix of `l` made of bytes of class `c`.
pub open spec fn lead_run(l: Seq<u8>, c: ByteClass) -> nat
    decreases l.len(),
{
    if l.len() > 0 && in_class(l[0], c) {
        1 + lead_run(l.drop_first(), c)
    } else {
        0
    }
}

/// Length of the longest suffix of `l` made of bytes of class `c`.
pub open spec fn trail_run(l: Seq<u8>, c: ByteClass) -> nat
    decreases l.len(),
{
    if l.len() > 0 && in_class(l.last(), c) {
        1 + trail_run(l.drop_last(), c)
    } else {
        0
    }
}

pub proof fn lemma_lead_run(l: Seq<u8>, c: ByteClass, k: int)
    requires
        0 <= k <= l.len(),
        forall|j: int| 0 <= j < k ==> in_class(#[trigger] l[j], c),
        k == l.len() || !in_class(l[k], c),
    ensures
        lead_run(l, c) == k,
    decreases k,
{
    if k > 0 {
        assert forall|j: int| 0 <= j < k - 1 implies in_class(#[trigger] l.drop_first()[j], c) by {
            assert(l.drop_first()[j] == l[j + 1]);
        }
        if k < l.len() {
            assert(l.drop_first()[k - 1] == l[k]);
        }
        lemma_lead_run(l.drop_first(), c, k - 1);
    }
}

pub proof fn lemma_trail_run(l: Seq<u8>, c: ByteClass, k: int)
    requires
        0 <= k <= l.len(),
        forall|j: int| l.len() - k <= j < l.len() ==> in_class(#[trigger] l[j], c),
        k == l.len() || !in_class(l[l.len() - k - 1], c),
    ensures
        trail_run(l, c) == k,
    decreases k,
{
    if k > 0 {
        assert(l.last() == l[l.len() - 1]);
        assert forall|j: int| l.drop_last().len() - (k - 1) <= j < l.drop_last().len() implies in_class(
            #[trigger] l.drop_last()[j],
            c,
        ) by {
            assert(l.drop_last()[j] == l[j]);
        }
        if k < l.len() {
            assert(l.drop_last()[l.drop_last().len() - (k - 1) - 1] == l[l.len() - k - 1]);
        }
        lemma_trail_run(l.drop_last(), c, k - 1);
    }
}

fn is_in_class(b: u8, c: ByteClass) -> (r: bool)
    ensures
        r == in_class(b, c),
{
    match c {
        ByteClass::Space => b == 0x20,
        ByteClass::Tab => b == 0x09,
        ByteClass::Blank => b == 0x20 || b == 0x09,
        ByteClass::BlankOrCr => b == 0x20 || b == 0x09 || b == 0x0d,
    }
}

/// Number of bytes of class `c` at the start of `line`.
pub fn leading_run(line: &[u8], c: ByteClass) -> (n: usize)
    ensures
        n == lead_run(line@, c),
{
    let mut i: usize = 0;
    while i < line.len() && is_in_class(line[i], c)
        invariant
            i <= line@.len(),
            forall|j: int| 0 <= j < i ==> in_class(#[trigger] line@[j], c),
        decreases line@.len() - i,
    {
        i = i + 1;
    }
    proof {
        lemma_lead_run(line@, c, i as int);
    }
    i
}

/// Number of bytes of class `c` at the end of `line`.
pub fn trailing_run(line: &[u8], c: ByteClass) -> (n: usize)
    ensures
        n == trail_run(line@, c),
{
    let mut k: usize = 0;
    while k < line.len() && is_in_class(line[line.len() - 1 - k], c)
        invariant
            k <= line@.len(),
            forall|j: int| line@.len() - k <= j < line@.len() ==> in_class(#[trigger] line@[j], c),
        decreases line@.len() - k,
    {
        k = k + 1;
    }
    proof {
        lemma_trail_run(line@, c, k as int);
    }
    k
}

/// Number of leading spaces.
pub fn leading_spaces(line: &[u8]) -> (n: usize)
    ensures
        n == lead_run(line@, ByteClass::Space),
{
    leading_run(line, ByteClass::Space)
}

/// Number of leading tabs.
pub fn leading_tabs(line: &[u8]) -> (n: usize)
    ensures
        n == lead_run(line@, ByteClass::Tab),
{
    leading_run(line, ByteClass::Tab)
}

/// `n` occurs in `h` at offset `i`.
pub open spec fn occurs_at(h: Seq<u8>, n: Seq<u8>, i: int) -> bool {
    0 <= i && i + n.len() <= h.len() && h.subrange(i, i + n.len()) == n
}

/// `i` is the offset of the first occurrence of `n` in `h`.
pub open spec fn is_first_match(h: Seq<u8>, n: Seq<u8>, i: int) -> bool {
    occurs_at(h, n, i) && forall|j: int| 0 <= j < i ==> !occurs_at(h, n, j)
}

/// `h` holds the non-empty needle `n` somewhere.
pub open spec fn spec_contains(h: Seq<u8>, n: Seq<u8>) -> bool {
    n.len() > 0 && exists|i: int| occurs_at(h, n, i)
}

/// `h` begins with `p`.
pub open spec fn spec_starts_with(h: Seq<u8>, p: Seq<u8>) -> bool {
    p.len() <= h.len() && h.subrange(0, p.len() as int) == p
}

/// Offset of the first occurrence of `n` in `h` (meaningful when there is one).
pub open spec fn first_match(h: Seq<u8>, n: Seq<u8>) -> int {
    choose|i: int| is_first_match(h, n, i)
}

/// One-based column of the first occurrence of `needle` in `line`: `0` for an
/// empty needle and `1` when the needle does not occur.
pub open spec fn spec_find_col(line: Seq<u8>, needle: Seq<u8>) -> int {
    if needle.len() == 0 {
        0
    } else if exists|i: int| occurs_at(line, needle, i) {
        first_match(line, needle) + 1
    } else {
        1
    }
}

pub proof fn lemma_first_match_unique(h: Seq<u8>, n: Seq<u8>, i: int)
    requires
        is_first_match(h, n, i),
    ensures
        first_match(h, n) == i,
{
    let k = first_match(h, n);
    assert(is_first_match(h, n, k));
    if k < i {
        assert(!occurs_at(h, n, k));
    }
    if i < k {
        assert(!occurs_at(h, n, i));
    }
}

/// Some occurrence implies a first one.
pub proof fn lemma_first_match_exists(h: Seq<u8>, n: Seq<u8>, i: int)
    requires
        occurs_at(h, n, i),
    ensures
        is_first_match(h, n, first_match(h, n)),
        first_match(h, n) <= i,
    decreases i,
{
    if exists|j: int| 0 <= j < i && occurs_at(h, n, j) {
        let j = choose|j: int| 0 <= j < i && occurs_at(h, n, j);
        lemma_first_match_exists(h, n, j);
    } else {
        assert(is_first_match(h, n, i));
        lemma_first_match_unique(h, n, i);
    }
}

fn matches_at(h: &[u8], n: &[u8], i: usize) -> (r: bool)
    requires
        i <= h@.len(),
    ensures
        r == occurs_at(h@, n@, i as int),
{
    if n.len() > h.len() - i {
        return false;
    }
    let mut j: usize = 0;
    while j < n.len()
        invariant
            i + n@.len() <= h@.len(),
            h@.len() == h.len(),
            j <= n@.len(),
            forall|k: int| 0 <= k < j ==> h@[i + k] == n@[k],
        decreases n@.len() - j,
    {
        if h[i + j] != n[j] {
            proof {
                assert(h@.subrange(i as int, i + n@.len())[j as int] == h@[i + j]);
            }
            return false;
        }
        j = j + 1;
    }
    assert(h@.subrange(i as int, i + n@.len()) =~= n@);
    true
}

/// Offset of the first occurrence of a non-empty needle.
pub fn find_first(h: &[u8], n: &[u8]) -> (r: Option<usize>)
    requires
        n@.len() > 0,
    ensures
        match r {
            Some(i) => is_first_match(h@, n@, i as int) && first_match(h@, n@) == i,
            None => forall|i: int| !occurs_at(h@, n@, i),
        },
{
    if n.len() > h.len() {
        return None;
    }
    let last = h.len() - n.len();
    let mut i: usize = 0;
    while i <= last
        invariant
            last == h@.len() - n@.len(),
            h@.len() == h.len(),
            n@.len() > 0,
            i <= last + 1,
            forall|j: int| 0 <= j < i ==> !occurs_at(h@, n@, j),
        decreases last + 1 - i,
    {
        if matches_at(h, n, i) {
            proof {
                lemma_first_match_unique(h@, n@, i as int);
            }
            return Some(i);
        }
        i = i + 1;
    }
    None
}

/// Whether `line` holds `needle`; an empty needle is never held.
pub fn contains(line: &[u8], needle: &[u8]) -> (r: bool)
    ensures
        r == spec_contains(line@, needle@),
{
    if needle.len() == 0 || line.len() < needle.len() {
        return false;
    }
    match find_first(line, needle) {
        Some(i) => true,
        None => false,
    }
}

/// One-based column of the first occurrence of `needle` in `line`.
pub fn find_col(line: &[u8], needle: &[u8]) -> (col: usize)
    ensures
        col == spec_find_col(line@, needle@),
        needle@.len() > 0 ==> col >= 1,
        needle@.len() > 0 && (exists|i: int| occurs_at(line@, needle@, i)) ==> is_first_match(
            line@,
            needle@,
            col - 1,
        ),
{
    if needle.len() == 0 {
        return 0;
    }
    match find_first(line, needle) {
        Some(i) => {
            assert(i < line.len());
            i + 1
        },
        None => 1,
    }
}

/// Whether `line` begins with `prefix`.
pub fn starts_with(line: &[u8], prefix: &[u8]) -> (r: bool)
    ensures
        r == spec_starts_with(line@, prefix@),
{
    if prefix.len() > line.len() {
        return false;
    }
    let r = matches_at(line, prefix, 0);
    proof {
        assert(occurs_at(line@, prefix@, 0) == spec_starts_with(line@, prefix@));
    }
    r
}

/// The line without leading spaces and tabs and without trailing spaces, tabs
/// and carriage returns.
pub open spec fn spec_trim(l: Seq<u8>) -> Seq<u8> {
    let start = lead_run(l, ByteClass::Blank);
    let end = l.len() - trail_run(l, ByteClass::BlankOrCr);
    if start >= end {
        Seq::empty()
    } else {
        l.subrange(start as int, end)
    }
}

pub proof fn lemma_trail_run_bound(l: Seq<u8>, c: ByteClass)
    ensures
        trail_run(l, c) <= l.len(),
    decreases l.len(),
{
    if l.len() > 0 && in_class(l.last(), c) {
        lemma_trail_run_bound(l.drop_last(), c);
    }
}

pub proof fn lemma_lead_run_bound(l: Seq<u8>, c: ByteClass)
    ensures
        lead_run(l, c) <= l.len(),
    decreases l.len(),
{
    if l.len() > 0 && in_class(l[0], c) {
        lemma_lead_run_bound(l.drop_first(), c);
    }
}

pub proof fn lemma_lead_run_stops(l: Seq<u8>, c: ByteClass)
    ensures
        lead_run(l, c) <= l.len(),
        forall|j: int| 0 <= j < lead_run(l, c) ==> in_class(#[trigger] l[j], c),
        lead_run(l, c) < l.len() ==> !in_class(l[lead_run(l, c) as int], c),
    decreases l.len(),
{
    if l.len() > 0 && in_class(l[0], c) {
        let d = l.drop_first();
        lemma_lead_run_stops(d, c);
        assert forall|j: int| 0 <= j < lead_run(l, c) implies in_class(#[trigger] l[j], c) by {
            if j > 0 {
                assert(l[j] == d[j - 1]);
            }
        }
        if lead_run(l, c) < l.len() {
            assert(l[lead_run(l, c) as int] == d[lead_run(d, c) as int]);
        }
    }
}

pub proof fn lemma_trail_run_stops(l: Seq<u8>, c: ByteClass)
    ensures
        trail_run(l, c) <= l.len(),
        forall|j: int| l.len() - trail_run(l, c) <= j < l.len() ==> in_class(#[trigger] l[j], c),
        trail_run(l, c) < l.len() ==> !in_class(l[l.len() - trail_run(l, c) - 1], c),
    decreases l.len(),
{
    if l.len() > 0 && in_class(l.last(), c) {
        let d = l.drop_last();
        lemma_trail_run_stops(d, c);
        assert forall|j: int| l.len() - trail_run(l, c) <= j < l.len() implies in_class(
            #[trigger] l[j],
            c,
        ) by {
            if j < l.len() - 1 {
                assert(l[j] == d[j]);
            }
        }
        if trail_run(l, c) < l.len() {
            assert(l[l.len() - trail_run(l, c) - 1] == d[d.len() - trail_run(d, c) - 1]);
        }
    }
}

/// Strips spaces and tabs at the start and spaces, tabs and carriage returns
/// at the end; the result is a sub-slice of `line`.
pub fn trim(line: &[u8]) -> (t: &[u8])
    ensures
        t@ == spec_trim(line@),
{
    let start = leading_run(line, ByteClass::Blank);
    let tail = trailing_run(line, ByteClass::BlankOrCr);
    proof {
        lemma_trail_run_bound(line@, ByteClass::BlankOrCr);
        lemma_lead_run_bound(line@, ByteClass::Blank);
    }
    let end = line.len() - tail;
    if start >= end {
        let e: &[u8] = &line[0..0];
        assert(e@ =~= Seq::<u8>::empty());
        e
    } else {
        &line[start..end]
    }
}

/// ASCII lower case of one byte.
pub open spec fn lower_byte(b: u8) -> u8 {
    if 0x41 <= b <= 0x5a {
        (b + 0x20) as u8
    } else {
        b
    }
}

/// ASCII lower case of a byte string; other bytes are kept.
pub open spec fn spec_ascii_lowercase(l: Seq<u8>) -> Seq<u8> {
    Seq::new(l.len(), |i: int| lower_byte(l[i]))
}

pub fn ascii_lowercase(line: &[u8]) -> (out: Vec<u8>)
    ensures
        out@ == spec_ascii_lowercase(line@),
{
    let mut out: Vec<u8> = Vec::new();
    let mut i: usize = 0;
    while i < line.len()
        invariant
            i <= line@.len(),
            out@ =~= spec_ascii_lowercase(line@).subrange(0, i as int),
        decreases line@.len() - i,
    {
        let b = line[i];
        let lb = if 0x41 <= b && b <= 0x5a { b + 0x20 } else { b };
        out.push(lb);
        i = i + 1;
    }
    out
}

} // verus!
