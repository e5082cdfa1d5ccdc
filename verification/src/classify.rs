//! Code-likelihood classifier: scores a comment's text by the share of its
//! lines that look like source code.

use vstd::prelude::*;

use crate::text::{
    contains_byte, has_byte, is_ws_byte, lemma_first_nl_is, lines_of, trim_end_spec, trim_spec,
    trim_start_spec,
};

verus! {

/// Whether `p` is a prefix of `s`.
pub open spec fn starts_with_spec(s: Seq<u8>, p: Seq<u8>) -> bool {
    p.len() <= s.len() && s.subrange(0, p.len() as int) == p
}

/// Whether `p` is a prefix of the slice `s`.
pub fn starts_with_bytes(s: &[u8], p: &Vec<u8>) -> (r: bool)
    ensures
        r == starts_with_spec(s@, p@),
{
    let m = p.len();
    if m > s.len() {
        return false;
    }
    let mut i: usize = 0;
    while i < m
        invariant
            0 <= i <= m,
            m == p@.len() <= s@.len(),
            forall|k: int| 0 <= k < i ==> s@[k] == p@[k],
        decreases m - i,
    {
        if s[i] != p[i] {
            assert(s@.subrange(0, m as int)[i as int] == s@[i as int]);
            return false;
        }
        i = i + 1;
    }
    assert(s@.subrange(0, m as int) =~= p@);
    true
}

/// A line looks like code if its trimmed form contains a statement
/// terminator or block delimiter, begins with one of the preprocessor
/// directives, or begins with a comment opener or continuation marker.
pub open spec fn is_code_line_spec(line: Seq<u8>) -> bool {
    let t = trim_spec(line);
    has_byte(t, 59)  // ';'
     || has_byte(t, 123)  // '{'
     || has_byte(t, 125)  // '}'
     || starts_with_spec(t, seq![35u8, 105u8, 110u8, 99u8, 108u8, 117u8, 100u8, 101u8])  // "#include"
        || starts_with_spec(t, seq![35u8, 100u8, 101u8, 102u8, 105u8, 110u8, 101u8])  // "#define"
        || starts_with_spec(t, seq![35u8, 105u8, 102u8, 100u8, 101u8, 102u8])  // "#ifdef"
        || starts_with_spec(t, seq![35u8, 105u8, 102u8, 110u8, 100u8, 101u8, 102u8])  // "#ifndef"
        || starts_with_spec(t, seq![35u8, 101u8, 110u8, 100u8, 105u8, 102u8])  // "#endif"
        || starts_with_spec(t, seq![47u8, 47u8])  // "//"
        || starts_with_spec(t, seq![47u8, 42u8])  // "/*"
        || starts_with_spec(t, seq![42u8, 32u8])  // "* "
}

/// Whether the trimmed form of the line looks like code.
pub fn is_code_line(line: &[u8]) -> (r: bool)
    ensures
        r == is_code_line_spec(line@),
{
    let n = line.len();
    proof {
        assert(line@.subrange(0, n as int) =~= line@);
    }
    let mut lo: usize = 0;
    while lo < n && is_ws_byte(line[lo])
        invariant
            0 <= lo <= n,
            n == line@.len(),
            trim_start_spec(line@) == trim_start_spec(line@.subrange(lo as int, n as int)),
        decreases n - lo,
    {
        assert(line@.subrange(lo as int, n as int).drop_first() =~= line@.subrange(
            lo as int + 1,
            n as int,
        ));
        lo = lo + 1;
    }
    assert(trim_start_spec(line@) == line@.subrange(lo as int, n as int));
    let mut hi: usize = n;
    while hi > lo && is_ws_byte(line[hi - 1])
        invariant
            lo <= hi <= n,
            n == line@.len(),
            trim_end_spec(line@.subrange(lo as int, n as int)) == trim_end_spec(
                line@.subrange(lo as int, hi as int),
            ),
        decreases hi,
    {
        assert(line@.subrange(lo as int, hi as int).drop_last() =~= line@.subrange(
            lo as int,
            hi as int - 1,
        ));
        hi = hi - 1;
    }
    assert(trim_spec(line@) == line@.subrange(lo as int, hi as int));
    let t = vstd::slice::slice_subrange(line, lo, hi);
    contains_byte(t, 59)  // ';'
     || contains_byte(t, 123)  // '{'
     || contains_byte(t, 125)  // '}'
     || starts_with_bytes(t, &vec![35u8, 105u8, 110u8, 99u8, 108u8, 117u8, 100u8, 101u8])  // "#include"
        || starts_with_bytes(t, &vec![35u8, 100u8, 101u8, 102u8, 105u8, 110u8, 101u8])  // "#define"
        || starts_with_bytes(t, &vec![35u8, 105u8, 102u8, 100u8, 101u8, 102u8])  // "#ifdef"
        || starts_with_bytes(t, &vec![35u8, 105u8, 102u8, 110u8, 100u8, 101u8, 102u8])  // "#ifndef"
        || starts_with_bytes(t, &vec![35u8, 101u8, 110u8, 100u8, 105u8, 102u8])  // "#endif"
        || starts_with_bytes(t, &vec![47u8, 47u8])  // "//"
        || starts_with_bytes(t, &vec![47u8, 42u8])  // "/*"
        || starts_with_bytes(t, &vec![42u8, 32u8])  // "* "
}

/// How many of the given lines look like code.
pub open spec fn count_code(ls: Seq<Seq<u8>>) -> int
    decreases ls.len(),
{
    if ls.len() == 0 {
        0
    } else {
        (if is_code_line_spec(ls[0]) {
            1int
        } else {
            0int
        }) + count_code(ls.drop_first())
    }
}

/// A comment is classified as containing code when it has at least one line
/// and the percentage of its code-like lines, as a real fraction of its line
/// count, reaches the threshold.
pub open spec fn is_code_comment_spec(s: Seq<u8>, threshold: u8) -> bool {
    let ls = lines_of(s);
    ls.len() > 0 && 100 * count_code(ls) >= (threshold as int) * ls.len()
}

/// Count the lines of a text and how many of them look like code.
fn line_stats(s: &[u8]) -> (r: (usize, usize))
    ensures
        r.0 == lines_of(s@).len(),
        r.1 == count_code(lines_of(s@)),
{
    let n = s.len();
    proof {
        assert(s@.subrange(0, n as int) =~= s@);
    }
    let mut i: usize = 0;
    let mut total: usize = 0;
    let mut code: usize = 0;
    while i < n
        invariant
            0 <= i <= n,
            n == s@.len(),
            code <= total <= i,
            lines_of(s@).len() == total + lines_of(s@.subrange(i as int, n as int)).len(),
            count_code(lines_of(s@)) == code + count_code(
                lines_of(s@.subrange(i as int, n as int)),
            ),
        decreases n - i,
    {
        let ghost rest = s@.subrange(i as int, n as int);
        let mut j: usize = i;
        while j < n && s[j] != 10
            invariant
                i <= j <= n,
                n == s@.len(),
                forall|k: int| i <= k < j ==> s@[k] != 10,
            decreases n - j,
        {
            j = j + 1;
        }
        proof {
            assert forall|k: int| 0 <= k < j - i implies rest[k] != 10 by {
                assert(rest[k] == s@[i + k]);
            }
            if j < n {
                assert(rest[j - i] == s@[j as int]);
            }
            lemma_first_nl_is(rest, j - i);
        }
        let line = vstd::slice::slice_subrange(s, i, j);
        proof {
            assert(line@ =~= rest.subrange(0, j - i));
        }
        let c = is_code_line(line);
        total = total + 1;
        if c {
            code = code + 1;
        }
        if j == n {
            proof {
                assert(line@ =~= rest);
                assert(lines_of(rest) == seq![rest]);
                assert(seq![rest].len() == 1);
                assert(seq![rest][0] == rest);
                assert(lines_of(rest).drop_first() =~= Seq::<Seq<u8>>::empty());
                assert(count_code(Seq::<Seq<u8>>::empty()) == 0);
                assert(count_code(lines_of(rest)) == (if is_code_line_spec(rest) {
                    1int
                } else {
                    0int
                }));
            }
            i = n;
            proof {
                assert(lines_of(s@.subrange(i as int, n as int)).len() == 0);
            }
        } else {
            proof {
                let tail = s@.subrange(j + 1, n as int);
                assert(rest.subrange(j - i + 1, rest.len() as int) =~= tail);
                assert(lines_of(rest) == seq![line@] + lines_of(tail));
                assert((seq![line@] + lines_of(tail))[0] == line@);
                assert((seq![line@] + lines_of(tail)).drop_first() =~= lines_of(tail));
            }
            i = j + 1;
        }
    }
    proof {
        assert(s@.subrange(i as int, n as int) =~= Seq::<u8>::empty());
        assert(lines_of(Seq::<u8>::empty()).len() == 0);
    }
    (total, code)
}

/// Whether the share of code-like lines in the comment's text meets the
/// threshold percentage; a comment with no lines is never code.
pub fn is_code_comment(comment: &[u8], threshold: u8) -> (r: bool)
    ensures
        r == is_code_comment_spec(comment@, threshold),
{
    let (total, code) = line_stats(comment);
    if total == 0 {
        false
    } else {
        let c: u128 = code as u128;
        let t: u128 = threshold as u128;
        let tot: u128 = total as u128;
        proof {
            assert(c * 100 <= 0xFFFF_FFFF_FFFF_FFFFu128 * 100) by (nonlinear_arith)
                requires
                    c <= 0xFFFF_FFFF_FFFF_FFFFu128,
            ;
            assert(t * tot <= 255u128 * 0xFFFF_FFFF_FFFF_FFFFu128) by (nonlinear_arith)
                requires
                    t <= 255u128,
                    tot <= 0xFFFF_FFFF_FFFF_FFFFu128,
            ;
        }
        c * 100 >= t * tot
    }
}

} // verus!
