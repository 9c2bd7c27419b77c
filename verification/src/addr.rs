//! The address source: splitting raw input into lines,
//! surrounding-whitespace trimming, and blank-line rejection, on raw
//! byte strings.

use vstd::prelude::*;

verus! {

/// The line separator of the input file format.
pub const NEWLINE: u8 = 10;

/// ASCII whitespace, the characters that trimming removes.
pub open spec fn is_space(b: u8) -> bool {
    b == 32 || b == 9 || b == 10 || b == 11 || b == 12 || b == 13
}

/// `s` without its leading whitespace.
pub open spec fn trim_front(s: Seq<u8>) -> Seq<u8>
    decreases s.len(),
{
    if s.len() > 0 && is_space(s[0]) {
        trim_front(s.drop_first())
    } else {
        s
    }
}

/// `s` without its trailing whitespace.
pub open spec fn trim_back(s: Seq<u8>) -> Seq<u8>
    decreases s.len(),
{
    if s.len() > 0 && is_space(s.last()) {
        trim_back(s.drop_last())
    } else {
        s
    }
}

/// `s` without surrounding whitespace.
pub open spec fn spec_trim(s: Seq<u8>) -> Seq<u8> {
    trim_back(trim_front(s))
}

/// A line becomes an address by trimming; a line that trims to nothing
/// yields no address at all.
pub open spec fn spec_clean_line(line: Seq<u8>) -> Option<Seq<u8>> {
    if spec_trim(line).len() == 0 {
        None
    } else {
        Some(spec_trim(line))
    }
}

fn byte_is_space(b: u8) -> (r: bool)
    ensures
        r == is_space(b),
{
    b == 32 || b == 9 || b == 10 || b == 11 || b == 12 || b == 13
}

proof fn lemma_trim_front_skip(s: Seq<u8>, k: int)
    requires
        0 <= k <= s.len(),
        forall|j: int| 0 <= j < k ==> is_space(s[j]),
        k == s.len() || !is_space(s[k]),
    ensures
        trim_front(s) == s.skip(k),
    decreases k,
{
    if k == 0 {
        assert(s.skip(0) =~= s);
    } else {
        assert(is_space(s[0]));
        lemma_trim_front_skip(s.drop_first(), k - 1);
        assert(s.drop_first().skip(k - 1) =~= s.skip(k));
    }
}

proof fn lemma_trim_back_take(s: Seq<u8>, m: int)
    requires
        0 <= m <= s.len(),
        forall|j: int| m <= j < s.len() ==> is_space(s[j]),
        m == 0 || !is_space(s[m - 1]),
    ensures
        trim_back(s) == s.take(m),
    decreases s.len() - m,
{
    if m == s.len() {
        assert(s.take(m) =~= s);
    } else {
        assert(is_space(s.last()));
        lemma_trim_back_take(s.drop_last(), m);
        assert(s.drop_last().take(m) =~= s.take(m));
    }
}

/// Remove surrounding whitespace from a raw byte string.
pub fn trim_bytes(s: &[u8]) -> (r: Vec<u8>)
    ensures
        r@ == spec_trim(s@),
{
    let len = s.len();
    let mut start: usize = 0;
    while start < len && byte_is_space(s[start])
        invariant
            0 <= start <= len == s@.len(),
            forall|j: int| 0 <= j < start ==> is_space(s@[j]),
        decreases len - start,
    {
        start = start + 1;
    }
    let mut end: usize = len;
    while end > start && byte_is_space(s[end - 1])
        invariant
            start <= end <= len == s@.len(),
            forall|j: int| end <= j < len ==> is_space(s@[j]),
        decreases end,
    {
        end = end - 1;
    }
    proof {
        lemma_trim_front_skip(s@, start as int);
        lemma_trim_back_take(s@.skip(start as int), end - start);
    }
    let mut r: Vec<u8> = Vec::new();
    let mut i: usize = start;
    while i < end
        invariant
            start <= i <= end <= s@.len(),
            r@ == s@.subrange(start as int, i as int),
        decreases end - i,
    {
        r.push(s[i]);
        assert(r@ =~= s@.subrange(start as int, i + 1));
        i = i + 1;
    }
    assert(r@ =~= s@.skip(start as int).take(end - start));
    r
}

/// Trim a raw input line; a blank or whitespace-only line yields no
/// address, so nothing downstream ever sees an empty address.
pub fn clean_line(line: &[u8]) -> (r: Option<Vec<u8>>)
    ensures
        r.deep_view() == spec_clean_line(line@),
{
    let t = trim_bytes(line);
    if t.len() == 0 {
        None
    } else {
        Some(t)
    }
}

/// Index of the first newline in `s`, or `s.len()` if there is none.
pub open spec fn spec_find_nl(s: Seq<u8>) -> nat
    decreases s.len(),
{
    if s.len() == 0 {
        0
    } else if s[0] == NEWLINE {
        0
    } else {
        1 + spec_find_nl(s.drop_first())
    }
}

/// The lines of `s`, split at each newline; the separators themselves
/// are dropped. A text without any newline is one single line.
pub open spec fn spec_lines(s: Seq<u8>) -> Seq<Seq<u8>>
    decreases s.len(),
{
    let i = spec_find_nl(s);
    if i >= s.len() {
        seq![s]
    } else {
        seq![s.take(i as int)] + spec_lines(s.skip(i + 1 as int))
    }
}

proof fn lemma_find_nl_is(s: Seq<u8>, k: int)
    requires
        0 <= k <= s.len(),
        forall|j: int| 0 <= j < k ==> s[j] != NEWLINE,
        k == s.len() || s[k] == NEWLINE,
    ensures
        spec_find_nl(s) == k,
    decreases k,
{
    if k > 0 {
        lemma_find_nl_is(s.drop_first(), k - 1);
    }
}

/// Split raw file content into its lines.
pub fn split_lines(s: &[u8]) -> (r: Vec<Vec<u8>>)
    ensures
        r.deep_view() == spec_lines(s@),
{
    let len = s.len();
    let mut r: Vec<Vec<u8>> = Vec::new();
    proof {
        assert(s@.skip(0) =~= s@);
        assert(r.deep_view() + spec_lines(s@.skip(0)) =~~= spec_lines(s@));
    }
    let mut start: usize = 0;
    let mut j: usize = 0;
    while j < len
        invariant
            0 <= start <= j <= len == s@.len(),
            forall|k: int| start <= k < j ==> s@[k] != NEWLINE,
            r.deep_view() + spec_lines(s@.skip(start as int)) == spec_lines(s@),
        decreases len - j,
    {
        if s[j] == NEWLINE {
            let seg = copy_range(s, start, j);
            proof {
                lemma_find_nl_is(s@.skip(start as int), j - start);
                assert(s@.skip(start as int).take(j - start) =~= s@.subrange(
                    start as int,
                    j as int,
                ));
                assert(s@.skip(start as int).skip(j - start + 1) =~= s@.skip(j + 1));
            }
            let ghost old_r = r.deep_view();
            r.push(seg);
            proof {
                assert(r.deep_view() =~~= old_r.push(seg@));
                assert(r.deep_view() + spec_lines(s@.skip(j + 1)) =~~= spec_lines(s@));
            }
            start = j + 1;
        }
        j = j + 1;
    }
    let seg = copy_range(s, start, len);
    proof {
        lemma_find_nl_is(s@.skip(start as int), len - start);
        assert(s@.skip(start as int).take(len - start) =~= s@.skip(start as int));
    }
    let ghost old_r = r.deep_view();
    r.push(seg);
    proof {
        assert(r.deep_view() =~~= old_r.push(seg@));
        assert(seg@ =~= s@.skip(start as int));
        assert(r.deep_view() =~~= spec_lines(s@));
    }
    r
}

/// The bytes of `s` from `from` (inclusive) to `to` (exclusive).
fn copy_range(s: &[u8], from: usize, to: usize) -> (r: Vec<u8>)
    requires
        0 <= from <= to <= s@.len(),
    ensures
        r@ == s@.subrange(from as int, to as int),
{
    let mut r: Vec<u8> = Vec::new();
    let mut i: usize = from;
    while i < to
        invariant
            from <= i <= to <= s@.len(),
            r@ == s@.subrange(from as int, i as int),
        decreases to - i,
    {
        r.push(s[i]);
        assert(r@ =~= s@.subrange(from as int, i + 1));
        i = i + 1;
    }
    r
}

/// The addresses among a sequence of lines: each line trimmed, lines
/// that trim to nothing dropped, in input order.
pub open spec fn spec_clean_lines(lines: Seq<Seq<u8>>) -> Seq<Seq<u8>>
    decreases lines.len(),
{
    if lines.len() == 0 {
        Seq::empty()
    } else {
        let rest = spec_clean_lines(lines.drop_last());
        match spec_clean_line(lines.last()) {
            Some(a) => rest.push(a),
            None => rest,
        }
    }
}

/// The candidate addresses of a whole input text: its lines, trimmed,
/// with blank lines dropped.
pub open spec fn spec_addresses(content: Seq<u8>) -> Seq<Seq<u8>> {
    spec_clean_lines(spec_lines(content))
}

/// Trim every line and drop the blank ones, keeping input order.
pub fn clean_lines(lines: &Vec<Vec<u8>>) -> (r: Vec<Vec<u8>>)
    ensures
        r.deep_view() == spec_clean_lines(lines.deep_view()),
{
    let mut r: Vec<Vec<u8>> = Vec::new();
    let mut i: usize = 0;
    while i < lines.len()
        invariant
            0 <= i <= lines.len(),
            r.deep_view() == spec_clean_lines(lines.deep_view().take(i as int)),
        decreases lines.len() - i,
    {
        proof {
            assert(lines.deep_view().take(i + 1).drop_last() =~= lines.deep_view().take(i as int));
            assert(lines.deep_view().take(i + 1).last() == lines.deep_view()[i as int]);
            assert(lines.deep_view()[i as int] == lines[i as int].deep_view());
            assert(lines[i as int].deep_view() =~= lines[i as int]@);
        }
        let ghost old_r = r.deep_view();
        match clean_line(lines[i].as_slice()) {
            Some(a) => {
                r.push(a);
                proof {
                    assert(r.deep_view() =~~= old_r.push(a@));
                }
            },
            None => {},
        }
        i = i + 1;
    }
    proof {
        assert(lines.deep_view().take(lines.deep_view().len() as int) =~= lines.deep_view());
    }
    r
}

/// The whole address source for batch mode: from raw file content to
/// the list of candidate addresses.
pub fn extract_addresses(content: &[u8]) -> (r: Vec<Vec<u8>>)
    ensures
        r.deep_view() == spec_addresses(content@),
{
    let lines = split_lines(content);
    clean_lines(&lines)
}

/// Blank or whitespace-only input never yields an address: every
/// address that the source hands on is non-empty.
pub proof fn lemma_no_blank_addresses(content: Seq<u8>)
    ensures
        forall|i: int|
            0 <= i < spec_addresses(content).len() ==> #[trigger] spec_addresses(
                content,
            )[i].len() > 0,
{
    lemma_clean_lines_not_blank(spec_lines(content));
}

proof fn lemma_clean_lines_not_blank(lines: Seq<Seq<u8>>)
    ensures
        forall|i: int|
            0 <= i < spec_clean_lines(lines).len() ==> #[trigger] spec_clean_lines(
                lines,
            )[i].len() > 0,
    decreases lines.len(),
{
    if lines.len() > 0 {
        lemma_clean_lines_not_blank(lines.drop_last());
        let rest = spec_clean_lines(lines.drop_last());
        assert forall|i: int|
            0 <= i < spec_clean_lines(lines).len() implies #[trigger] spec_clean_lines(
            lines,
        )[i].len() > 0 by {
            if i < rest.len() {
                assert(spec_clean_lines(lines)[i] == rest[i]);
            } else {
                assert(spec_clean_line(lines.last()) is Some);
            }
        }
    }
}

} // verus!
