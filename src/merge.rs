use vstd::prelude::*;
use vstd::seq_lib::group_to_multiset_ensures;

verus! {

broadcast use group_to_multiset_ensures;

/// One span of the AST map: blocks `start..end` are rendered from the span's AST,
/// which is the `index`-th entry of the post's span list.
#[derive(Clone, Copy, Debug)]
pub struct SpanRef {
    pub start: usize,
    pub end: usize,
    pub index: usize,
}

/// What the post body does at one block position.
#[derive(Clone, Copy, Debug)]
pub enum BlockStep {
    /// Render the block from its own data.
    Native,
    /// Nothing: the block lies inside `span` and is rendered when its last block comes.
    Skip { span: SpanRef },
    /// Render `span`'s AST in place of this block, the last one it covers.
    Override { span: SpanRef },
}

/// Spans are ordered by start, then end, then their place in the input.
pub open spec fn span_lt(a: SpanRef, b: SpanRef) -> bool {
    a.start < b.start || (a.start == b.start && (a.end < b.end || (a.end == b.end
        && a.index < b.index)))
}

pub open spec fn spans_sorted(q: Seq<SpanRef>) -> bool {
    forall|i: int, j: int| 0 <= i < j < q.len() ==> span_lt(#[trigger] q[i], #[trigger] q[j])
}

/// The spans of `s` tagged with their place in it.
pub open spec fn indexed_spans(s: Seq<(usize, usize)>) -> Seq<SpanRef> {
    Seq::new(s.len(), |k: int| SpanRef { start: s[k].0, end: s[k].1, index: k as usize })
}

/// The queue once every span that ends at or before block `i` is gone from its front.
pub open spec fn drop_passed(q: Seq<SpanRef>, i: int) -> Seq<SpanRef>
    decreases q.len(),
{
    if q.len() > 0 && q[0].end <= i {
        drop_passed(q.drop_first(), i)
    } else {
        q
    }
}

/// The step taken at block `i` with queue `q`, and the queue left for block `i + 1`.
pub open spec fn step_at(q: Seq<SpanRef>, i: int) -> (BlockStep, Seq<SpanRef>) {
    let d = drop_passed(q, i);
    if d.len() > 0 && i == d[0].end - 1 {
        (BlockStep::Override { span: d[0] }, d.drop_first())
    } else if d.len() > 0 && d[0].start <= i < d[0].end {
        (BlockStep::Skip { span: d[0] }, d)
    } else {
        (BlockStep::Native, d)
    }
}

/// The steps for blocks `i..n`, starting with queue `q`.
pub open spec fn plan_from(q: Seq<SpanRef>, i: int, n: int) -> Seq<BlockStep>
    decreases n - i,
{
    if i >= n {
        Seq::empty()
    } else {
        let (s, rest) = step_at(q, i);
        seq![s].add(plan_from(rest, i + 1, n))
    }
}

proof fn lemma_plan_from_steps(q: Seq<SpanRef>, i: int, n: int)
    ensures
        plan_from(q, i, n).len() == if i >= n { 0 } else { n - i },
        forall|k: int|
            0 <= k < plan_from(q, i, n).len() && (#[trigger] plan_from(q, i, n)[k] is Override)
                ==> plan_from(q, i, n)[k]->Override_span.end == i + k + 1,
        forall|k: int|
            0 <= k < plan_from(q, i, n).len() && (#[trigger] plan_from(q, i, n)[k] is Skip) ==> {
                let sp = plan_from(q, i, n)[k]->Skip_span;
                sp.start <= i + k < sp.end - 1
            },
    decreases n - i,
{
    if i < n {
        let (s, rest) = step_at(q, i);
        lemma_plan_from_steps(rest, i + 1, n);
        let p = plan_from(q, i, n);
        assert forall|k: int| 0 < k < p.len() implies #[trigger] p[k] == plan_from(
            rest,
            i + 1,
            n,
        )[k - 1] by {}
    }
}

/// The walk over the blocks moves forward only: each block gets exactly one step, a
/// span's AST stands in for the last block it covers and no other, a skipped block lies
/// before the last block of the span that covers it, and no span is used twice.
pub proof fn lemma_plan_monotonic(q: Seq<SpanRef>, n: int)
    requires
        0 <= n,
    ensures
        plan_from(q, 0, n).len() == n,
        forall|i: int|
            0 <= i < n && (#[trigger] plan_from(q, 0, n)[i] is Override) ==> plan_from(
                q,
                0,
                n,
            )[i]->Override_span.end == i + 1,
        forall|i: int|
            0 <= i < n && (#[trigger] plan_from(q, 0, n)[i] is Skip) ==> {
                let sp = plan_from(q, 0, n)[i]->Skip_span;
                sp.start <= i < sp.end - 1
            },
        forall|i: int, j: int|
            0 <= i < j < n && (#[trigger] plan_from(q, 0, n)[i] is Override) && (
            #[trigger] plan_from(q, 0, n)[j] is Override) ==> plan_from(q, 0, n)[i]->Override_span
                != plan_from(q, 0, n)[j]->Override_span,
{
    lemma_plan_from_steps(q, 0, n);
}

/// Sorts the spans of `spans` (pairs of start and end) by start, then end; spans with
/// the same start and end keep their input order.
pub fn sort_spans(spans: &Vec<(usize, usize)>) -> (r: Vec<SpanRef>)
    ensures
        spans_sorted(r@),
        r@.to_multiset() == indexed_spans(spans@).to_multiset(),
{
    let mut out: Vec<SpanRef> = Vec::new();
    let mut k: usize = 0;
    while k < spans.len()
        invariant
            k <= spans@.len(),
            spans_sorted(out@),
            out@.to_multiset() == indexed_spans(spans@).subrange(0, k as int).to_multiset(),
            forall|j: int| 0 <= j < out@.len() ==> #[trigger] out@[j].index < k,
        decreases spans@.len() - k,
    {
        let s = SpanRef { start: spans[k].0, end: spans[k].1, index: k };
        let mut pos: usize = 0;
        while pos < out.len() && !(s.start < out[pos].start || (s.start == out[pos].start
            && s.end < out[pos].end))
            invariant
                pos <= out@.len(),
                forall|j: int| 0 <= j < pos ==> span_lt(#[trigger] out@[j], s),
                forall|j: int| 0 <= j < out@.len() ==> #[trigger] out@[j].index < k,
                s.index == k,
            decreases out@.len() - pos,
        {
            pos = pos + 1;
        }
        proof {
            if pos < out@.len() {
                assert forall|j: int| pos <= j < out@.len() implies span_lt(s, #[trigger] out@[j]) by {
                    if j > pos {
                        assert(span_lt(out@[pos as int], out@[j]));
                    }
                }
            }
        }
        let ghost before = out@;
        out.insert(pos, s);
        proof {
            assert(out@ == before.insert(pos as int, s));
            let ix = indexed_spans(spans@);
            assert(ix.subrange(0, k + 1) == ix.subrange(0, k as int).push(s));
            assert forall|i: int, j: int| 0 <= i < j < out@.len() implies span_lt(
                #[trigger] out@[i],
                #[trigger] out@[j],
            ) by {
                if i < pos && j > pos {
                    assert(out@[i] == before[i]);
                    assert(out@[j] == before[j - 1]);
                } else if i < pos && j < pos {
                    assert(span_lt(before[i], before[j]));
                } else if i > pos {
                    assert(span_lt(before[i - 1], before[j - 1]));
                }
            }
        }
        k = k + 1;
    }
    assert(indexed_spans(spans@).subrange(0, spans@.len() as int) == indexed_spans(spans@));
    out
}

/// Walks blocks `0..n_blocks` against the span queue `queue`, deciding for each block
/// whether it is rendered natively, skipped, or replaced by a span's AST.
pub fn plan_blocks(n_blocks: usize, queue: &Vec<SpanRef>) -> (r: Vec<BlockStep>)
    ensures
        r@ == plan_from(queue@, 0, n_blocks as int),
{
    let mut steps: Vec<BlockStep> = Vec::new();
    let mut front: usize = 0;
    let mut i: usize = 0;
    let ghost len = queue@.len() as int;
    assert(queue@.subrange(0, len) == queue@);
    while i < n_blocks
        invariant
            i <= n_blocks,
            front <= queue@.len(),
            len == queue@.len(),
            plan_from(queue@, 0, n_blocks as int) == steps@ + plan_from(
                queue@.subrange(front as int, len),
                i as int,
                n_blocks as int,
            ),
        decreases n_blocks - i,
    {
        let ghost q0 = queue@.subrange(front as int, len);
        while front < queue.len() && queue[front].end <= i
            invariant
                front <= queue@.len(),
                len == queue@.len(),
                drop_passed(q0, i as int) == drop_passed(
                    queue@.subrange(front as int, len),
                    i as int,
                ),
            decreases queue@.len() - front,
        {
            assert(queue@.subrange(front as int, len).drop_first() == queue@.subrange(
                front + 1,
                len,
            ));
            front = front + 1;
        }
        let ghost d = queue@.subrange(front as int, len);
        assert(drop_passed(d, i as int) == d);
        let step;
        if front < queue.len() && i + 1 == queue[front].end {
            step = BlockStep::Override { span: queue[front] };
            assert(d.drop_first() == queue@.subrange(front + 1, len));
            front = front + 1;
        } else if front < queue.len() && queue[front].start <= i && i < queue[front].end {
            step = BlockStep::Skip { span: queue[front] };
        } else {
            step = BlockStep::Native;
        }
        assert(step_at(q0, i as int) == (step, queue@.subrange(front as int, len)));
        let ghost prev = steps@;
        steps.push(step);
        assert(prev + plan_from(q0, i as int, n_blocks as int) == steps@ + plan_from(
            queue@.subrange(front as int, len),
            i + 1,
            n_blocks as int,
        ));
        i = i + 1;
    }
    steps
}

} // verus!
