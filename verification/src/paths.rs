//! Deriving the two batch output paths from the input file's path:
//! `<stem>_valid.txt` and `<stem>_invalid.txt`, in the input file's
//! own directory.

use vstd::prelude::*;

verus! {

/// The path separator.
pub const SLASH: u8 = 47;

/// The extension separator.
pub const DOT: u8 = 46;

/// Length of the directory part of a path: everything up to and
/// including the last slash, or nothing if the path has no slash.
pub open spec fn spec_dir_len(p: Seq<u8>) -> nat
    decreases p.len(),
{
    if p.len() == 0 {
        0
    } else if p.last() == SLASH {
        p.len()
    } else {
        spec_dir_len(p.drop_last())
    }
}

/// The largest index in `(lo, j]` holding a dot, or `lo` if there is
/// none.
pub open spec fn spec_last_dot_above(p: Seq<u8>, lo: int, j: int) -> int
    decreases j - lo,
{
    if j <= lo {
        lo
    } else if p[j] == DOT {
        j
    } else {
        spec_last_dot_above(p, lo, j - 1)
    }
}

/// Where the stem of the file name ends, as an index into the whole
/// path: just before the last dot of the file name, unless the name
/// has no dot past its first character (no extension, or a name that
/// is nothing but a leading dot), in which case the whole name
/// belongs to the stem.
pub open spec fn spec_stem_end(p: Seq<u8>) -> int {
    let d = spec_dir_len(p) as int;
    let k = spec_last_dot_above(p, d, p.len() - 1);
    if k > d {
        k
    } else {
        p.len() as int
    }
}

/// An output path: the input path's directory and stem, continued by
/// the given suffix.
pub open spec fn spec_output_path(p: Seq<u8>, suffix: Seq<u8>) -> Seq<u8> {
    p.take(spec_stem_end(p)) + suffix
}

/// The bytes of `_valid.txt`.
pub open spec fn spec_valid_suffix() -> Seq<u8> {
    seq![95u8, 118u8, 97u8, 108u8, 105u8, 100u8, 46u8, 116u8, 120u8, 116u8]
}

/// The bytes of `_invalid.txt`.
pub open spec fn spec_invalid_suffix() -> Seq<u8> {
    seq![95u8, 105u8, 110u8, 118u8, 97u8, 108u8, 105u8, 100u8, 46u8, 116u8, 120u8, 116u8]
}

fn append_range(out: &mut Vec<u8>, s: &[u8], from: usize, to: usize)
    requires
        from <= to <= s@.len(),
    ensures
        final(out)@ == old(out)@ + s@.subrange(from as int, to as int),
{
    let mut i: usize = from;
    proof {
        assert(out@ =~= old(out)@ + s@.subrange(from as int, from as int));
    }
    while i < to
        invariant
            from <= i <= to <= s@.len(),
            out@ == old(out)@ + s@.subrange(from as int, i as int),
        decreases to - i,
    {
        out.push(s[i]);
        assert(out@ =~= old(out)@ + s@.subrange(from as int, i + 1));
        i = i + 1;
    }
}

fn append_valid_suffix(out: &mut Vec<u8>)
    ensures
        final(out)@ == old(out)@ + spec_valid_suffix(),
{
    out.push(95);
    out.push(118);
    out.push(97);
    out.push(108);
    out.push(105);
    out.push(100);
    out.push(46);
    out.push(116);
    out.push(120);
    out.push(116);
    assert(out@ =~= old(out)@ + spec_valid_suffix());
}

fn append_invalid_suffix(out: &mut Vec<u8>)
    ensures
        final(out)@ == old(out)@ + spec_invalid_suffix(),
{
    out.push(95);
    out.push(105);
    out.push(110);
    out.push(118);
    out.push(97);
    out.push(108);
    out.push(105);
    out.push(100);
    out.push(46);
    out.push(116);
    out.push(120);
    out.push(116);
    assert(out@ =~= old(out)@ + spec_invalid_suffix());
}

/// Where the stem of the input path's file name ends.
fn stem_end(p: &[u8]) -> (r: usize)
    ensures
        r == spec_stem_end(p@),
        r <= p@.len(),
{
    let len = p.len();
    let mut d: usize = len;
    proof {
        assert(p@.take(len as int) =~= p@);
    }
    while d > 0 && p[d - 1] != SLASH
        invariant
            0 <= d <= len == p@.len(),
            spec_dir_len(p@) == spec_dir_len(p@.take(d as int)),
        decreases d,
    {
        proof {
            assert(p@.take(d as int).last() == p@[d - 1]);
            assert(p@.take(d as int).drop_last() =~= p@.take(d - 1));
        }
        d = d - 1;
    }
    proof {
        if d > 0 {
            assert(p@.take(d as int).last() == p@[d - 1]);
            assert(spec_dir_len(p@.take(d as int)) == d);
        } else {
            assert(p@.take(0) =~= Seq::<u8>::empty());
        }
        assert(spec_dir_len(p@) == d);
    }
    let mut j: usize = len;
    while j > 0 && j - 1 > d && p[j - 1] != DOT
        invariant
            d <= len,
            0 <= j <= len == p@.len(),
            j == len || j - 1 >= d,
            spec_last_dot_above(p@, d as int, len - 1) == spec_last_dot_above(
                p@,
                d as int,
                j - 1,
            ),
        decreases j,
    {
        j = j - 1;
    }
    if j > 0 && j - 1 > d {
        assert(p@[j - 1] == DOT);
        assert(spec_last_dot_above(p@, d as int, len - 1) == j - 1);
        j - 1
    } else {
        proof {
            assert(spec_last_dot_above(p@, d as int, len - 1) == d);
        }
        len
    }
}

/// Derive the two output paths of a batch run from the input file's
/// path: the path of the partition for existing accounts, then the
/// path of the partition for non-existing ones.
pub fn output_paths(p: &[u8]) -> (r: (Vec<u8>, Vec<u8>))
    ensures
        r.0@ == spec_output_path(p@, spec_valid_suffix()),
        r.1@ == spec_output_path(p@, spec_invalid_suffix()),
{
    let end = stem_end(p);
    let mut valid: Vec<u8> = Vec::new();
    append_range(&mut valid, p, 0, end);
    append_valid_suffix(&mut valid);
    let mut invalid: Vec<u8> = Vec::new();
    append_range(&mut invalid, p, 0, end);
    append_invalid_suffix(&mut invalid);
    proof {
        assert(p@.subrange(0, spec_stem_end(p@)) =~= p@.take(spec_stem_end(p@)));
    }
    (valid, invalid)
}

} // verus!
