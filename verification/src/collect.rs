//! Comment collector: flattens a syntax tree into the ordered list of byte
//! spans of its comment nodes by a pre-order depth-first walk.

use vstd::prelude::*;

use crate::merge::spans_wf;

verus! {

/// One node of a syntax tree, as the pipeline needs it: a kind label, the
/// half-open byte span the node covers, and its children in syntactic
/// left-to-right order.
pub struct TreeNode {
    pub kind: String,
    pub start: usize,
    pub end: usize,
    pub children: Vec<TreeNode>,
}

/// Whether a node is a comment node: its kind label is exactly "comment".
pub open spec fn is_comment_node(n: TreeNode) -> bool {
    n.kind@ == "comment"@
}

/// The span the node itself contributes: its own span when it is a comment
/// node, nothing otherwise.
pub open spec fn own_span(n: TreeNode) -> Seq<(usize, usize)> {
    if is_comment_node(n) {
        seq![(n.start, n.end)]
    } else {
        Seq::empty()
    }
}

/// The comment spans collected from a node in pre-order: the node's own
/// contribution followed by those of its children, left to right.
pub open spec fn collected(n: TreeNode) -> Seq<(usize, usize)>
    decreases n, n.children@.len() + 1,
{
    own_span(n) + collected_from(n, 0)
}

/// The comment spans collected from the children of `n` starting at child
/// `i`, left to right.
pub open spec fn collected_from(n: TreeNode, i: int) -> Seq<(usize, usize)>
    decreases n, n.children@.len() - i,
{
    if i < 0 || i >= n.children@.len() {
        Seq::empty()
    } else {
        collected(n.children@[i]) + collected_from(n, i + 1)
    }
}

/// A well-formed syntax tree: every node covers a non-inverted byte range,
/// children lie inside their parent and follow one another without overlap,
/// and a comment node is a non-empty leaf.
pub open spec fn node_wf(n: TreeNode) -> bool
    decreases n, n.children@.len() + 1,
{
    &&& n.start <= n.end
    &&& is_comment_node(n) ==> n.start < n.end && n.children@.len() == 0
    &&& forall|i: int|
        0 <= i < n.children@.len() ==> n.start <= (#[trigger] n.children@[i]).start
            && n.children@[i].end <= n.end
    &&& forall|i: int|
        1 <= i < n.children@.len() ==> n.children@[i - 1].end <= (#[trigger] n.children@[i]).start
    &&& forall|i: int| 0 <= i < n.children@.len() ==> node_wf(#[trigger] n.children@[i])
}

/// Whether the node's kind label is the distinguished comment kind.
fn is_comment_kind(kind: &String) -> (r: bool)
    ensures
        r == (kind@ == "comment"@),
{
    let c: String = "comment".to_owned();
    *kind == c
}

/// Append the spans of every comment node below `node`, in pre-order
/// depth-first order, to `out`.
pub fn collect_comments(node: &TreeNode, out: &mut Vec<(usize, usize)>)
    ensures
        final(out)@ == old(out)@ + collected(*node),
    decreases *node,
{
    if is_comment_kind(&node.kind) {
        out.push((node.start, node.end));
    }
    proof {
        assert(out@ == old(out)@ + own_span(*node));
    }
    let m = node.children.len();
    let mut i: usize = 0;
    while i < m
        invariant
            m == node.children@.len(),
            0 <= i <= m,
            out@ + collected_from(*node, i as int) == old(out)@ + collected(*node),
        decreases m - i,
    {
        collect_comments(&node.children[i], out);
        proof {
            assert(collected_from(*node, i as int) == collected(node.children@[i as int])
                + collected_from(*node, i as int + 1));
        }
        i = i + 1;
    }
    proof {
        assert(collected_from(*node, m as int) =~= Seq::<(usize, usize)>::empty());
        assert(out@ + Seq::<(usize, usize)>::empty() =~= out@);
    }
}

/// Bounds and ordering of a well-formed node's collected spans: each is a
/// non-empty interval inside the node's own span, and consecutive spans do
/// not overlap.
proof fn lemma_collected_props(n: TreeNode)
    requires
        node_wf(n),
    ensures
        forall|k: int|
            0 <= k < collected(n).len() ==> n.start <= (#[trigger] collected(n)[k]).0
                && collected(n)[k].0 < collected(n)[k].1 && collected(n)[k].1 <= n.end,
        forall|k: int|
            1 <= k < collected(n).len() ==> collected(n)[k - 1].1 <= (#[trigger] collected(n)[k]).0,
    decreases n, n.children@.len() + 1,
{
    let c = collected(n);
    lemma_collected_from_props(n, 0);
    let cf = collected_from(n, 0);
    if is_comment_node(n) {
        assert(n.children@.len() == 0);
        assert(cf =~= Seq::<(usize, usize)>::empty());
        assert(c =~= own_span(n));
    } else {
        assert(c =~= cf);
    }
}

/// Bounds and ordering of the spans collected from children `i` on.
proof fn lemma_collected_from_props(n: TreeNode, i: int)
    requires
        node_wf(n),
        0 <= i <= n.children@.len(),
    ensures
        forall|k: int|
            0 <= k < collected_from(n, i).len() ==> (#[trigger] collected_from(n, i)[k]).0
                < collected_from(n, i)[k].1 && collected_from(n, i)[k].1 <= n.end,
        i < n.children@.len() ==> forall|k: int|
            0 <= k < collected_from(n, i).len() ==> n.children@[i].start <= (
            #[trigger] collected_from(n, i)[k]).0,
        forall|k: int|
            1 <= k < collected_from(n, i).len() ==> collected_from(n, i)[k - 1].1 <= (
            #[trigger] collected_from(n, i)[k]).0,
    decreases n, n.children@.len() - i,
{
    if i >= n.children@.len() {
    } else {
        let child = n.children@[i];
        assert(node_wf(child));
        lemma_collected_props(child);
        lemma_collected_from_props(n, i + 1);
        let cc = collected(child);
        let rest = collected_from(n, i + 1);
        let cf = collected_from(n, i);
        assert(cf == cc + rest);
        assert forall|k: int| 0 <= k < cc.len() implies #[trigger] cf[k] == cc[k] by {}
        assert forall|k: int|
            cc.len() <= k < cf.len() implies #[trigger] cf[k] == rest[k - cc.len()] by {}
        if i + 1 < n.children@.len() {
            assert(child.end <= n.children@[i + 1].start);
        }
        assert forall|k: int|
            1 <= k < cf.len() implies cf[k - 1].1 <= (#[trigger] cf[k]).0 by {
            if k < cc.len() {
                assert(cf[k - 1] == cc[k - 1] && cf[k] == cc[k]);
            } else if k == cc.len() {
                if cc.len() > 0 && rest.len() > 0 {
                    assert(cf[k - 1] == cc[k - 1] && cf[k] == rest[0]);
                    assert(cc[k - 1].1 <= child.end);
                    assert(child.end <= n.children@[i + 1].start);
                    assert(n.children@[i + 1].start <= rest[0].0);
                }
            } else {
                assert(cf[k - 1] == rest[k - 1 - cc.len()] && cf[k] == rest[k - cc.len()]);
            }
        }
    }
}

/// For any well-formed syntax tree whose extent lies inside the source
/// text, the collector's output is sorted ascending by start and its spans
/// are non-empty and mutually non-overlapping.
pub proof fn lemma_collected_ordered(n: TreeNode, src: Seq<u8>)
    requires
        node_wf(n),
        n.end <= src.len(),
    ensures
        spans_wf(src, collected(n)),
{
    lemma_collected_props(n);
}

} // verus!
