use vstd::prelude::*;

verus! {

pub open spec fn is_newline(b: u8) -> bool {
    b == 0x0a
}

/// Offset of the first `'\n'` in `c`, or `c.len()` when there is none.
pub open spec fn newline_index(c: Seq<u8>) -> nat
    decreases c.len(),
{
    if c.len() == 0 || is_newline(c[0]) {
        0
    } else {
        1 + newline_index(c.drop_first())
    }
}

pub proof fn lemma_newline_index(c: Seq<u8>, i: int)
    requires
        0 <= i <= c.len(),
        forall|j: int| 0 <= j < i ==> !is_newline(#[trigger] c[j]),
        i == c.len() || is_newline(c[i]),
    ensures
        newline_index(c) == i,
    decreases i,
{
    if i > 0 {
        assert forall|j: int| 0 <= j < i - 1 implies !is_newline(#[trigger] c.drop_first()[j]) by {
            assert(c.drop_first()[j] == c[j + 1]);
        }
        if i < c.len() {
            assert(c.drop_first()[i - 1] == c[i]);
        }
        lemma_newline_index(c.drop_first(), i - 1);
    }
}

pub proof fn lemma_newline_index_bound(c: Seq<u8>)
    ensures
        newline_index(c) <= c.len(),
        newline_index(c) < c.len() ==> is_newline(c[newline_index(c) as int]),
    decreases c.len(),
{
    if c.len() > 0 && !is_newline(c[0]) {
        lemma_newline_index_bound(c.drop_first());
        if newline_index(c) < c.len() {
            assert(c.drop_first()[newline_index(c.drop_first()) as int] == c[newline_index(c) as int]);
        }
    }
}

pub proof fn lemma_before_newline_index(c: Seq<u8>, j: int)
    requires
        0 <= j < newline_index(c),
    ensures
        j < c.len(),
        !is_newline(c[j]),
    decreases j,
{
    if j > 0 {
        lemma_before_newline_index(c.drop_first(), j - 1);
    }
}

/// The lines of `c`: the pieces between `'\n'` bytes, without the `'\n'`
/// bytes themselves; a final `'\n'` ends the last line rather than starting an
/// empty one, and empty content has no lines.
pub open spec fn spec_split_lines(c: Seq<u8>) -> Seq<Seq<u8>>
    decreases c.len(),
{
    if c.len() == 0 {
        Seq::empty()
    } else {
        let i = newline_index(c);
        if i < c.len() {
            seq![c.subrange(0, i as int)] + spec_split_lines(c.subrange(i as int + 1, c.len() as int))
        } else {
            seq![c]
        }
    }
}

/// The byte sequences seen through a sequence of slices.
pub open spec fn slice_views(v: Seq<&[u8]>) -> Seq<Seq<u8>> {
    v.map_values(|l: &[u8]| l@)
}

/// `r` lists, in increasing order, every offset of a `'\n'` in `c`.
pub open spec fn lists_newlines(c: Seq<u8>, r: Seq<usize>) -> bool {
    &&& forall|k: int| 0 <= k < r.len() ==> #[trigger] r[k] < c.len() && is_newline(c[r[k] as int])
    &&& forall|k: int, l: int| 0 <= k < l < r.len() ==> #[trigger] r[k] < #[trigger] r[l]
    &&& forall|p: int|
        0 <= p < c.len() && is_newline(#[trigger] c[p]) ==> exists|k: int|
            0 <= k < r.len() && r[k] == p
}

/// Calls `memchr::memchr_iter`, which yields every offset of the needle in
/// the haystack in increasing order; the contract states that of the
/// collected offsets.
#[verifier::external_body]
fn newline_offsets(content: &[u8]) -> (r: Vec<usize>)
    ensures
        lists_newlines(content@, r@),
{
    memchr::memchr_iter(b'\n', content).collect()
}

/// Splits `content` into lines, as `spec_split_lines` states.
pub fn split_lines(content: &[u8]) -> (lines: Vec<&[u8]>)
    ensures
        slice_views(lines@) == spec_split_lines(content@),
{
    let offsets = newline_offsets(content);
    let mut lines: Vec<&[u8]> = Vec::new();
    let mut line_s: usize = 0;
    let mut k: usize = 0;
    assert(content@.subrange(0, content@.len() as int) =~= content@);
    while k < offsets.len()
        invariant
            lists_newlines(content@, offsets@),
            k <= offsets@.len(),
            line_s <= content@.len(),
            content@.len() == content.len(),
            k == 0 ==> line_s == 0,
            k > 0 ==> line_s == offsets@[k - 1] + 1,
            spec_split_lines(content@) == slice_views(lines@) + spec_split_lines(
                content@.subrange(line_s as int, content@.len() as int),
            ),
        decreases offsets@.len() - k,
    {
        let pos = offsets[k];
        let ghost rest = content@.subrange(line_s as int, content@.len() as int);
        proof {
            if k > 0 {
                assert(offsets@[k - 1] < offsets@[k as int]);
            }
            assert forall|j: int| 0 <= j < pos - line_s implies !is_newline(#[trigger] rest[j]) by {
                assert(rest[j] == content@[line_s + j]);
                if is_newline(content@[line_s + j]) {
                    let m = choose|m: int| 0 <= m < offsets@.len() && offsets@[m] == line_s + j;
                    if m < k {
                        if m < k - 1 {
                            assert(offsets@[m] < offsets@[k - 1]);
                        }
                    } else if m > k {
                        assert(offsets@[k as int] < offsets@[m]);
                    }
                }
            }
            assert(rest[pos - line_s] == content@[pos as int]);
            lemma_newline_index(rest, pos - line_s);
            assert(rest.subrange(0, pos - line_s) =~= content@.subrange(line_s as int, pos as int));
            assert(rest.subrange(pos - line_s + 1, rest.len() as int) =~= content@.subrange(
                pos + 1,
                content@.len() as int,
            ));
        }
        let line = &content[line_s..pos];
        let ghost old_lines = lines@;
        lines.push(line);
        assert(slice_views(lines@) =~= slice_views(old_lines).push(line@));
        line_s = pos + 1;
        k = k + 1;
    }
    let ghost rest = content@.subrange(line_s as int, content@.len() as int);
    proof {
        assert forall|j: int| 0 <= j < rest.len() implies !is_newline(#[trigger] rest[j]) by {
            assert(rest[j] == content@[line_s + j]);
            if is_newline(content@[line_s + j]) {
                let m = choose|m: int| 0 <= m < offsets@.len() && offsets@[m] == line_s + j;
                if m < k - 1 {
                    assert(offsets@[m] < offsets@[k - 1]);
                }
            }
        }
        lemma_newline_index(rest, rest.len() as int);
    }
    if line_s < content.len() {
        let line = &content[line_s..content.len()];
        let ghost old_lines = lines@;
        lines.push(line);
        assert(slice_views(lines@) =~= slice_views(old_lines).push(line@));
        assert(rest =~= line@);
    } else {
        assert(rest =~= Seq::<u8>::empty());
    }
    lines
}

} // verus!
