//! Reconstruction of the source text from a span list: the regions outside
//! the spans and the regions inside them, concatenated in order, give back
//! the original text byte for byte.

use vstd::prelude::*;

use crate::merge::{lemma_merge_wf, merge_spec, spans_wf};

verus! {

/// The text reassembled from byte position `pos` on: the region outside
/// span `i`, then span `i` itself, then the rest; after the last span, the
/// tail of the text.
pub open spec fn reconstruct_from(
    src: Seq<u8>,
    spans: Seq<(usize, usize)>,
    i: int,
    pos: int,
) -> Seq<u8>
    decreases spans.len() - i,
{
    if i < 0 || i >= spans.len() {
        src.subrange(pos, src.len() as int)
    } else {
        src.subrange(pos, spans[i].0 as int) + src.subrange(spans[i].0 as int, spans[i].1 as int)
            + reconstruct_from(src, spans, i + 1, spans[i].1 as int)
    }
}

/// The whole text reassembled from its span list, outside and inside
/// regions concatenated in order.
pub open spec fn reconstruct_spec(src: Seq<u8>, spans: Seq<(usize, usize)>) -> Seq<u8> {
    reconstruct_from(src, spans, 0, 0)
}

proof fn lemma_reconstruct_from(src: Seq<u8>, spans: Seq<(usize, usize)>, i: int, pos: int)
    requires
        spans_wf(src, spans),
        0 <= i <= spans.len(),
        0 <= pos <= src.len(),
        i < spans.len() ==> pos <= spans[i].0,
    ensures
        reconstruct_from(src, spans, i, pos) == src.subrange(pos, src.len() as int),
    decreases spans.len() - i,
{
    if i >= spans.len() {
    } else {
        lemma_reconstruct_from(src, spans, i + 1, spans[i].1 as int);
        assert(reconstruct_from(src, spans, i, pos) =~= src.subrange(pos, src.len() as int));
    }
}

/// Reassembling any well-formed span list's outside and inside regions in
/// order reproduces the source text exactly.
pub proof fn lemma_reconstruct_identity(src: Seq<u8>, spans: Seq<(usize, usize)>)
    requires
        spans_wf(src, spans),
    ensures
        reconstruct_spec(src, spans) == src,
{
    lemma_reconstruct_from(src, spans, 0, 0);
    assert(src.subrange(0, src.len() as int) =~= src);
}

/// Reconstructing the source around the merger's output spans reproduces
/// the original source text exactly: merging neither gains nor loses bytes.
pub proof fn lemma_merge_round_trip(src: Seq<u8>, spans: Seq<(usize, usize)>)
    requires
        spans_wf(src, spans),
    ensures
        reconstruct_spec(src, merge_spec(src, spans)) == src,
{
    lemma_merge_wf(src, spans);
    lemma_reconstruct_identity(src, merge_spec(src, spans));
}

/// Append the bytes of `src` in `[from, to)` to `r`.
fn extend_range(r: &mut Vec<u8>, src: &[u8], from: usize, to: usize)
    requires
        from <= to <= src@.len(),
    ensures
        final(r)@ == old(r)@ + src@.subrange(from as int, to as int),
{
    let mut j: usize = from;
    while j < to
        invariant
            from <= j <= to <= src@.len(),
            r@ == old(r)@ + src@.subrange(from as int, j as int),
        decreases to - j,
    {
        r.push(src[j]);
        proof {
            assert(old(r)@ + src@.subrange(from as int, j as int) + seq![src@[j as int]]
                =~= old(r)@ + src@.subrange(from as int, j as int + 1));
        }
        j = j + 1;
    }
    proof {
        assert(r@ =~= old(r)@ + src@.subrange(from as int, to as int));
    }
}

/// Rebuild the source text from its span list by concatenating, in order,
/// each region outside a span and the span's own region.
pub fn reconstruct_source(src: &[u8], spans: &[(usize, usize)]) -> (r: Vec<u8>)
    requires
        spans_wf(src@, spans@),
    ensures
        r@ == reconstruct_spec(src@, spans@),
        r@ == src@,
{
    let n = spans.len();
    let mut r: Vec<u8> = Vec::new();
    let mut pos: usize = 0;
    let mut i: usize = 0;
    while i < n
        invariant
            spans_wf(src@, spans@),
            n == spans@.len(),
            0 <= i <= n,
            pos <= src@.len(),
            i < n ==> pos <= spans@[i as int].0,
            r@ + reconstruct_from(src@, spans@, i as int, pos as int) == reconstruct_spec(
                src@,
                spans@,
            ),
        decreases n - i,
    {
        let sp = spans[i];
        let s = sp.0;
        let e = sp.1;
        proof {
            assert(spans@[i as int].0 < spans@[i as int].1 <= src@.len());
        }
        let ghost r0 = r@;
        extend_range(&mut r, src, pos, s);
        extend_range(&mut r, src, s, e);
        proof {
            assert(r@ =~= r0 + src@.subrange(pos as int, s as int) + src@.subrange(
                s as int,
                e as int,
            ));
            assert(reconstruct_from(src@, spans@, i as int, pos as int) == src@.subrange(
                pos as int,
                s as int,
            ) + src@.subrange(s as int, e as int) + reconstruct_from(
                src@,
                spans@,
                i as int + 1,
                e as int,
            ));
            assert(r@ + reconstruct_from(src@, spans@, i as int + 1, e as int) =~= r0
                + reconstruct_from(src@, spans@, i as int, pos as int));
        }
        pos = e;
        i = i + 1;
    }
    extend_range(&mut r, src, pos, src.len());
    proof {
        lemma_reconstruct_identity(src@, spans@);
        assert(r@ =~= reconstruct_spec(src@, spans@));
    }
    r
}

} // verus!
