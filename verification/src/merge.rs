//! Comment merger: collapses runs of consecutive single-line comment spans,
//! separated from each other by whitespace only, into single logical spans.

use vstd::prelude::*;

use crate::text::{first_nl, is_blank, is_blank_range, lemma_first_nl, lines_of};

verus! {

/// A well-formed span list over a source text: each span is a non-empty
/// half-open byte interval inside the text, and consecutive spans do not
/// overlap and are ordered ascending by start.
pub open spec fn spans_wf(src: Seq<u8>, spans: Seq<(usize, usize)>) -> bool {
    &&& forall|i: int| 0 <= i < spans.len() ==> (#[trigger] spans[i]).0 < spans[i].1 <= src.len()
    &&& forall|i: int| 1 <= i < spans.len() ==> spans[i - 1].1 <= (#[trigger] spans[i]).0
}

/// A span covers a single line when the text it covers is exactly one line:
/// it is non-empty and no line feed occurs before its final byte (a final
/// line feed merely ends that one line).
pub open spec fn single_line_spec(src: Seq<u8>, start: int, end: int) -> bool {
    start < end && forall|k: int| start <= k < end - 1 ==> src[k] != 10
}

/// In a well-formed span list every earlier span ends at or before every
/// later one begins: the list is sorted ascending by start and its spans
/// are mutually non-overlapping.
pub proof fn lemma_spans_wf_sorted(src: Seq<u8>, spans: Seq<(usize, usize)>)
    requires
        spans_wf(src, spans),
    ensures
        forall|i: int, j: int|
            0 <= i < j < spans.len() ==> (#[trigger] spans[i]).1 <= (#[trigger] spans[j]).0
                && spans[i].0 < spans[j].0,
{
    assert forall|i: int, j: int|
        0 <= i < j < spans.len() implies (#[trigger] spans[i]).1 <= (#[trigger] spans[j]).0
        && spans[i].0 < spans[j].0 by {
        lemma_spans_wf_step(src, spans, i, j);
    }
}

proof fn lemma_spans_wf_step(src: Seq<u8>, spans: Seq<(usize, usize)>, i: int, j: int)
    requires
        spans_wf(src, spans),
        0 <= i < j < spans.len(),
    ensures
        spans[i].1 <= spans[j].0,
    decreases j - i,
{
    if i + 1 < j {
        lemma_spans_wf_step(src, spans, i, j - 1);
        assert(spans[j - 1].0 < spans[j - 1].1 <= spans[j].0);
    }
}

/// A span is single-line exactly when the text it covers splits into
/// exactly one line.
pub proof fn lemma_single_line_lines(src: Seq<u8>, start: int, end: int)
    requires
        0 <= start <= end <= src.len(),
    ensures
        single_line_spec(src, start, end) <==> lines_of(src.subrange(start, end)).len() == 1,
{
    let sub = src.subrange(start, end);
    lemma_first_nl(sub);
    let k = first_nl(sub);
    assert forall|m: int| 0 <= m < sub.len() implies sub[m] == src[start + m] by {}
    if sub.len() == 0 {
    } else if k >= sub.len() - 1 {
        if k == sub.len() - 1 {
            assert(sub.subrange(k + 1, sub.len() as int) =~= Seq::<u8>::empty());
            assert(lines_of(Seq::<u8>::empty()).len() == 0);
        }
        assert forall|m: int| start <= m < end - 1 implies src[m] != 10 by {
            assert(sub[m - start] == src[m]);
            assert(m - start < k);
        }
        assert(single_line_spec(src, start, end));
    } else {
        assert(sub[k] == 10);
        assert(src[start + k] == 10);
        assert(start <= start + k < end - 1);
        assert(!single_line_spec(src, start, end));
        let tail = sub.subrange(k + 1, sub.len() as int);
        assert(tail.len() > 0);
        assert(lines_of(tail).len() >= 1);
        assert(lines_of(sub).len() >= 2);
    }
}

/// Two consecutive spans may merge when both cover a single line and only
/// whitespace lies between them.
pub open spec fn merge_eligible(src: Seq<u8>, a: (usize, usize), b: (usize, usize)) -> bool {
    &&& single_line_spec(src, a.0 as int, a.1 as int)
    &&& single_line_spec(src, b.0 as int, b.1 as int)
    &&& is_blank(src.subrange(a.1 as int, b.0 as int))
}

/// Whether the text covered by the span is exactly one line.
pub fn is_single_line_comment(src: &[u8], span: (usize, usize)) -> (r: bool)
    requires
        span.0 <= span.1 <= src@.len(),
    ensures
        r == single_line_spec(src@, span.0 as int, span.1 as int),
{
    if span.0 >= span.1 {
        return false;
    }
    let mut k: usize = span.0;
    while k < span.1 - 1
        invariant
            span.0 <= k <= span.1 - 1,
            span.1 <= src@.len(),
            forall|j: int| span.0 <= j < k ==> src@[j] != 10,
        decreases span.1 - k,
    {
        if src[k] == 10 {
            return false;
        }
        k = k + 1;
    }
    true
}

/// The merged spans from position `i` on, while a logical span beginning at
/// `cur_start` and reaching the end of span `i - 1` is still open.
pub open spec fn merge_from(
    src: Seq<u8>,
    spans: Seq<(usize, usize)>,
    i: int,
    cur_start: usize,
) -> Seq<(usize, usize)>
    recommends
        1 <= i <= spans.len(),
    decreases spans.len() - i,
{
    if i >= spans.len() {
        seq![(cur_start, spans[spans.len() - 1].1)]
    } else if merge_eligible(src, spans[i - 1], spans[i]) {
        merge_from(src, spans, i + 1, cur_start)
    } else {
        seq![(cur_start, spans[i - 1].1)] + merge_from(src, spans, i + 1, spans[i].0)
    }
}

/// The ordered list of logical comment spans: each maximal run of
/// consecutive merge-eligible spans becomes one span from the run's first
/// start to its last end.
pub open spec fn merge_spec(src: Seq<u8>, spans: Seq<(usize, usize)>) -> Seq<(usize, usize)> {
    if spans.len() == 0 {
        Seq::empty()
    } else {
        merge_from(src, spans, 1, spans[0].0)
    }
}

/// Collapse runs of consecutive single-line comment spans separated by
/// whitespace only into single spans; all other spans are kept unchanged,
/// in order.
pub fn merge_adjacent_comments(src: &[u8], comments: &[(usize, usize)]) -> (merged: Vec<
    (usize, usize),
>)
    requires
        spans_wf(src@, comments@),
    ensures
        merged@ == merge_spec(src@, comments@),
{
    let n = comments.len();
    if n == 0 {
        return Vec::new();
    }
    let mut merged: Vec<(usize, usize)> = Vec::new();
    let mut cur_start: usize = comments[0].0;
    let mut cur_end: usize = comments[0].1;
    let mut i: usize = 1;
    while i < n
        invariant
            1 <= i <= n,
            n == comments@.len(),
            spans_wf(src@, comments@),
            cur_end == comments@[i - 1].1,
            merge_spec(src@, comments@) == merged@ + merge_from(
                src@,
                comments@,
                i as int,
                cur_start,
            ),
        decreases n - i,
    {
        let prev = comments[i - 1];
        let next = comments[i];
        let prev_single = is_single_line_comment(src, prev);
        let next_single = is_single_line_comment(src, next);
        let blank = is_blank_range(src, prev.1, next.0);
        if prev_single && next_single && blank {
            proof {
                assert(merge_eligible(src@, comments@[i as int - 1], comments@[i as int]));
            }
            cur_end = next.1;
        } else {
            proof {
                assert(!merge_eligible(src@, comments@[i as int - 1], comments@[i as int]));
                assert(merged@ + (seq![(cur_start, cur_end)] + merge_from(
                    src@,
                    comments@,
                    i as int + 1,
                    comments@[i as int].0,
                )) =~= (merged@ + seq![(cur_start, cur_end)]) + merge_from(
                    src@,
                    comments@,
                    i as int + 1,
                    comments@[i as int].0,
                ));
            }
            merged.push((cur_start, cur_end));
            cur_start = next.0;
            cur_end = next.1;
        }
        i = i + 1;
    }
    proof {
        assert(merge_from(src@, comments@, n as int, cur_start) == seq![(cur_start, cur_end)]);
    }
    merged.push((cur_start, cur_end));
    merged
}

/// Properties of the merged tail: it opens with the span begun at
/// `cur_start`, ends where the input ends, is itself a well-formed span
/// list, and no two consecutive output spans are merge-eligible.
proof fn lemma_merge_from_props(src: Seq<u8>, spans: Seq<(usize, usize)>, i: int, cur_start: usize)
    requires
        spans_wf(src, spans),
        1 <= i <= spans.len(),
        cur_start <= spans[i - 1].0,
    ensures
        merge_from(src, spans, i, cur_start).len() >= 1,
        merge_from(src, spans, i, cur_start)[0].0 == cur_start,
        spans[i - 1].1 <= merge_from(src, spans, i, cur_start)[0].1,
        merge_from(src, spans, i, cur_start).last().1 == spans[spans.len() - 1].1,
        spans_wf(src, merge_from(src, spans, i, cur_start)),
        forall|k: int|
            1 <= k < merge_from(src, spans, i, cur_start).len() ==> !merge_eligible(
                src,
                merge_from(src, spans, i, cur_start)[k - 1],
                #[trigger] merge_from(src, spans, i, cur_start)[k],
            ),
    decreases spans.len() - i,
{
    let out = merge_from(src, spans, i, cur_start);
    if i >= spans.len() {
        assert(spans[i - 1].0 < spans[i - 1].1 <= src.len());
    } else if merge_eligible(src, spans[i - 1], spans[i]) {
        assert(spans[i - 1].1 <= spans[i].0);
        assert(spans[i].0 < spans[i].1);
        lemma_merge_from_props(src, spans, i + 1, cur_start);
    } else {
        let rest = merge_from(src, spans, i + 1, spans[i].0);
        lemma_merge_from_props(src, spans, i + 1, spans[i].0);
        let head = (cur_start, spans[i - 1].1);
        assert(out == seq![head] + rest);
        assert(out[0] == head);
        assert forall|k: int| 1 <= k < out.len() implies #[trigger] out[k] == rest[k - 1] by {}
        assert(cur_start <= spans[i - 1].0 < spans[i - 1].1 <= src.len());
        assert(head.1 <= rest[0].0);
        if merge_eligible(src, head, rest[0]) {
            assert forall|k: int|
                spans[i - 1].0 <= k < spans[i - 1].1 - 1 implies src[k] != 10 by {
                assert(head.0 <= k < head.1 - 1);
            }
            assert(single_line_spec(src, spans[i - 1].0 as int, spans[i - 1].1 as int));
            assert(spans[i].1 <= rest[0].1);
            assert forall|k: int| spans[i].0 <= k < spans[i].1 - 1 implies src[k] != 10 by {
                assert(rest[0].0 <= k < rest[0].1 - 1);
            }
            assert(single_line_spec(src, spans[i].0 as int, spans[i].1 as int));
            assert(merge_eligible(src, spans[i - 1], spans[i]));
            assert(false);
        }
        assert forall|k: int|
            1 <= k < out.len() implies !merge_eligible(src, out[k - 1], #[trigger] out[k]) by {
            if k >= 2 {
                assert(out[k - 1] == rest[k - 2] && out[k] == rest[k - 1]);
            }
        }
        assert(out.last() == rest.last());
    }
}

/// A well-formed span list in which no two consecutive spans are
/// merge-eligible is a fixed point of the merger.
proof fn lemma_merge_from_fixed(src: Seq<u8>, spans: Seq<(usize, usize)>, i: int)
    requires
        spans_wf(src, spans),
        1 <= i <= spans.len(),
        forall|k: int| 1 <= k < spans.len() ==> !merge_eligible(src, spans[k - 1], #[trigger] spans[k]),
    ensures
        merge_from(src, spans, i, spans[i - 1].0) == spans.subrange(i - 1, spans.len() as int),
    decreases spans.len() - i,
{
    if i >= spans.len() {
        assert(merge_from(src, spans, i, spans[i - 1].0) =~= spans.subrange(
            i - 1,
            spans.len() as int,
        ));
    } else {
        assert(!merge_eligible(src, spans[i - 1], spans[i]));
        lemma_merge_from_fixed(src, spans, i + 1);
        assert(merge_from(src, spans, i, spans[i - 1].0) =~= spans.subrange(
            i - 1,
            spans.len() as int,
        ));
    }
}

/// The merger's output is itself a well-formed, ordered span list, and no
/// two consecutive spans of it can merge any further.
pub proof fn lemma_merge_wf(src: Seq<u8>, spans: Seq<(usize, usize)>)
    requires
        spans_wf(src, spans),
    ensures
        spans_wf(src, merge_spec(src, spans)),
        forall|k: int|
            1 <= k < merge_spec(src, spans).len() ==> !merge_eligible(
                src,
                merge_spec(src, spans)[k - 1],
                #[trigger] merge_spec(src, spans)[k],
            ),
    decreases spans.len(),
{
    if spans.len() > 0 {
        lemma_merge_from_props(src, spans, 1, spans[0].0);
    }
}

/// Applying the merger twice to a well-formed span list yields the same
/// output as applying it once.
pub proof fn lemma_merge_idempotent(src: Seq<u8>, spans: Seq<(usize, usize)>)
    requires
        spans_wf(src, spans),
    ensures
        merge_spec(src, merge_spec(src, spans)) == merge_spec(src, spans),
{
    if spans.len() > 0 {
        lemma_merge_from_props(src, spans, 1, spans[0].0);
        let m = merge_spec(src, spans);
        assert(m[0].0 == spans[0].0);
        lemma_merge_from_fixed(src, m, 1);
        assert(m.subrange(0, m.len() as int) =~= m);
    }
}

} // verus!
