//! The output head: choosing the best-scored tokens.
//!
//! Scores are 32-bit floating-point values, each held as its bit pattern.

use crate::ieee::lt;
use crate::tensor::Matrix;
use vstd::prelude::*;

verus! {

use crate::ieee::{is_nan, less, order_key};
use crate::metabolic_core::{D_MODEL, N_RES};

pub const VOCAB_SIZE: usize = 50_000;

pub const TOP_K: usize = 200;

/// A token and the bit pattern of its score.
#[derive(Debug, Clone, Copy, PartialEq, Eq, Structural)]
pub struct SparseLogit {
    pub token_id: u32,
    pub logit: u32,
}

/// No score is NaN.
pub open spec fn all_numbers(scores: Seq<u32>) -> bool {
    forall|i: int| 0 <= i < scores.len() ==> !is_nan(#[trigger] scores[i])
}

/// Scores beside their indices, from the lowest score to the highest.
pub open spec fn ascending(buf: Seq<(u32, u32)>) -> bool {
    forall|i: int, j: int|
        0 <= i <= j < buf.len() ==> order_key((#[trigger] buf[i]).0) <= order_key(
            (#[trigger] buf[j]).0,
        )
}

/// No two entries have the same index.
pub open spec fn distinct_ids(buf: Seq<(u32, u32)>) -> bool {
    forall|i: int, j: int|
        0 <= i < j < buf.len() ==> (#[trigger] buf[i]).1 != (#[trigger] buf[j]).1
}

/// The index `id` has an entry.
pub open spec fn has_id(buf: Seq<(u32, u32)>, id: int) -> bool {
    exists|i: int| 0 <= i < buf.len() && (#[trigger] buf[i]).1 == id
}

/// `buf` holds some of the first `n` scores, each beside its own index.
pub open spec fn keeps_some(buf: Seq<(u32, u32)>, scores: Seq<u32>, n: int) -> bool {
    &&& distinct_ids(buf)
    &&& forall|i: int|
        0 <= i < buf.len() ==> (#[trigger] buf[i]).1 < n && buf[i].0 == scores[buf[i].1 as int]
}

/// No score of `buf` is NaN.
pub open spec fn keeps_numbers(buf: Seq<(u32, u32)>) -> bool {
    forall|i: int| 0 <= i < buf.len() ==> !is_nan((#[trigger] buf[i]).0)
}

/// `buf` holds the best of the first `n` scores in ascending order: each beside
/// its own index, and no number that was left out better than one that was kept.
pub open spec fn keeps_best(buf: Seq<(u32, u32)>, scores: Seq<u32>, n: int) -> bool {
    &&& keeps_some(buf, scores, n)
    &&& keeps_numbers(buf)
    &&& ascending(buf)
    &&& forall|id: int|
        0 <= id < n && !is_nan(scores[id]) && !(#[trigger] has_id(buf, id)) ==> buf.len() > 0
            && order_key(scores[id]) <= order_key(buf[0].0)
}

/// `top` lists `k` different tokens, each with its own score.
pub open spec fn lists_tokens(top: Seq<SparseLogit>, scores: Seq<u32>, k: int) -> bool {
    &&& top.len() == k
    &&& forall|i: int, j: int|
        0 <= i < j < top.len() ==> (#[trigger] top[i]).token_id != (#[trigger] top[j]).token_id
    &&& forall|i: int|
        0 <= i < top.len() ==> (#[trigger] top[i]).token_id < scores.len() && top[i].logit
            == scores[top[i].token_id as int]
}

/// `top` lists `k` different tokens by descending score, each with its own
/// score, which is a number, and no token that is not listed has a higher score
/// than one that is.
pub open spec fn is_top_k(top: Seq<SparseLogit>, scores: Seq<u32>, k: int) -> bool {
    &&& lists_tokens(top, scores, k)
    &&& forall|i: int| 0 <= i < top.len() ==> !is_nan((#[trigger] top[i]).logit)
    &&& forall|i: int, j: int|
        0 <= i < j < top.len() ==> order_key((#[trigger] top[i]).logit) >= order_key(
            (#[trigger] top[j]).logit,
        )
    &&& forall|id: int, i: int|
        #![trigger scores[id], top[i]]
        0 <= id < scores.len() && 0 <= i < top.len() && (forall|j: int|
            0 <= j < top.len() ==> (#[trigger] top[j]).token_id != id) ==> !less(
            top[i].logit,
            scores[id],
        )
}

/// Move the first entry of `buf` behind the entries that follow it as long as
/// they are smaller. Where the other entries are in ascending order and all
/// scores are numbers, all of `buf` is in ascending order then.
pub fn sift_down(buf: &mut Vec<(u32, u32)>)
    requires
        old(buf)@.len() > 0,
    ensures
        exists|pos: int|
            {
                &&& 0 <= pos < old(buf)@.len()
                &&& final(buf)@ == #[trigger] old(buf)@.skip(1).insert(pos, old(buf)@[0])
                &&& forall|i: int|
                    1 <= i <= pos ==> less((#[trigger] old(buf)@[i]).0, old(buf)@[0].0)
                &&& pos + 1 < old(buf)@.len() ==> !less(old(buf)@[pos + 1].0, old(buf)@[0].0)
            },
        ascending(old(buf)@.skip(1)) && keeps_numbers(old(buf)@) ==> ascending(final(buf)@),
{
    let ghost before = buf@;
    let ghost rest = before.skip(1);
    let candidate = buf[0];
    let mut pos: usize = 0;
    while pos < buf.len() - 1 && lt(buf[pos + 1].0, candidate.0)
        invariant
            before.len() > 0,
            rest == before.skip(1),
            candidate == before[0],
            pos < buf@.len(),
            buf@.len() == before.len(),
            forall|i: int| 0 <= i < pos ==> buf@[i] == rest[i],
            forall|i: int| pos < i < buf@.len() ==> buf@[i] == before[i],
            forall|i: int| 1 <= i <= pos ==> less((#[trigger] before[i]).0, candidate.0),
        decreases buf.len() - pos,
    {
        assert(rest[pos as int] == before[pos + 1]);
        let next = buf[pos + 1];
        buf.set(pos, next);
        pos += 1;
    }
    buf.set(pos, candidate);
    proof {
        let placed = rest.insert(pos as int, before[0]);
        assert forall|i: int| 0 <= i < placed.len() implies buf@[i] == placed[i] by {
            if i > pos {
                assert(placed[i] == rest[i - 1]);
                assert(rest[i - 1] == before[i]);
            }
        }
        assert(buf@ =~= placed);
        if ascending(rest) && keeps_numbers(before) {
            assert forall|i: int, j: int| 0 <= i <= j < buf@.len() implies order_key(
                (#[trigger] buf@[i]).0,
            ) <= order_key((#[trigger] buf@[j]).0) by {
                if i < pos {
                    assert(buf@[i] == rest[i] && rest[i] == before[i + 1]);
                }
                if i > pos {
                    assert(buf@[i] == rest[i - 1] && buf@[j] == rest[j - 1]);
                } else if i == pos && j > pos {
                    assert(buf@[j] == rest[j - 1]);
                    assert(before[pos + 1] == rest[pos as int]);
                    assert(!is_nan(before[pos + 1].0) && !is_nan(before[0].0));
                    assert(order_key(candidate.0) <= order_key(rest[pos as int].0));
                } else if i < pos && j > pos {
                    assert(buf@[i] == rest[i] && buf@[j] == rest[j - 1]);
                }
            }
        }
    }
}

/// Putting an entry with a new index into its place keeps what was kept.
proof fn placed_entries(before: Seq<(u32, u32)>, after: Seq<(u32, u32)>, pos: int)
    requires
        before.len() > 0,
        0 <= pos < before.len(),
        after == before.skip(1).insert(pos, before[0]),
        distinct_ids(before),
    ensures
        after.len() == before.len(),
        distinct_ids(after),
        forall|i: int|
            0 <= i < after.len() ==> exists|j: int|
                0 <= j < before.len() && (#[trigger] after[i]) == #[trigger] before[j],
        forall|id: int| #[trigger] has_id(after, id) <==> has_id(before, id),
{
    let source = |i: int|
        if i < pos {
            i + 1
        } else if i == pos {
            0
        } else {
            i
        };
    assert forall|i: int| 0 <= i < after.len() implies (#[trigger] after[i]) == before[source(
        i,
    )] by {}
    assert forall|i: int, j: int| 0 <= i < j < after.len() implies (#[trigger] after[i]).1 != (
    #[trigger] after[j]).1 by {
        assert(after[i] == before[source(i)] && after[j] == before[source(j)]);
        if source(i) < source(j) {
        } else {
            assert(before[source(j)].1 != before[source(i)].1);
        }
    }
    assert forall|id: int| #[trigger] has_id(after, id) <==> has_id(before, id) by {
        if has_id(after, id) {
            let i = choose|i: int| 0 <= i < after.len() && (#[trigger] after[i]).1 == id;
            assert(before[source(i)].1 == id);
        }
        if has_id(before, id) {
            let j = choose|j: int| 0 <= j < before.len() && (#[trigger] before[j]).1 == id;
            let i = if j == 0 {
                pos
            } else if j - 1 < pos {
                j - 1
            } else {
                j
            };
            assert(after[i] == before[j]);
        }
    }
}

/// The best in ascending order, listed from the back, are the top.
proof fn listed_from_the_back(
    top: Seq<SparseLogit>,
    heap: Seq<(u32, u32)>,
    scores: Seq<u32>,
    k: int,
)
    requires
        0 < k == heap.len(),
        lists_tokens(top, scores, k),
        keeps_best(heap, scores, scores.len() as int),
        forall|j: int|
            0 <= j < k ==> (#[trigger] top[j]).token_id == heap[k - 1 - j].1 && top[j].logit
                == heap[k - 1 - j].0,
    ensures
        is_top_k(top, scores, k),
{
    assert forall|a: int| 0 <= a < top.len() implies !is_nan((#[trigger] top[a]).logit) by {
        assert(!is_nan(heap[k - 1 - a].0));
    }
    assert forall|a: int, b: int| 0 <= a < b < top.len() implies order_key(
        (#[trigger] top[a]).logit,
    ) >= order_key((#[trigger] top[b]).logit) by {
        assert(order_key(heap[k - 1 - b].0) <= order_key(heap[k - 1 - a].0));
    }
    assert forall|id: int, a: int|
        #![trigger scores[id], top[a]]
        0 <= id < scores.len() && 0 <= a < top.len() && (forall|j: int|
            0 <= j < top.len() ==> (#[trigger] top[j]).token_id != id) implies !less(
        top[a].logit,
        scores[id],
    ) by {
        if has_id(heap, id) {
            let j = choose|j: int| 0 <= j < heap.len() && (#[trigger] heap[j]).1 == id;
            assert(top[k - 1 - j].token_id == id);
        }
        assert(order_key(heap[0].0) <= order_key(heap[k - 1 - a].0));
    }
}

/// The `k` best of `scores` by descending score. Which of several equal scores
/// is kept, and in which order equal scores come, is left open. A NaN behind the
/// first `k` scores is passed over; one among them leaves the order open.
pub fn top_k_indices_and_values(scores: &[u32], k: usize) -> (top: Vec<SparseLogit>)
    requires
        0 < k <= scores@.len(),
        scores@.len() <= 0x1_0000_0000,
    ensures
        lists_tokens(top@, scores@, k as int),
        all_numbers(scores@.take(k as int)) ==> is_top_k(top@, scores@, k as int),
        top@.len() == k,
        forall|i: int, j: int|
            0 <= i < j < k ==> (#[trigger] top@[i]).token_id != (#[trigger] top@[j]).token_id,
        forall|i: int|
            0 <= i < k ==> (#[trigger] top@[i]).token_id < scores@.len() && top@[i].logit
                == scores@[top@[i].token_id as int],
        (forall|i: int| 0 <= i < k ==> !is_nan(#[trigger] scores@[i])) ==> forall|i: int, j: int|
            0 <= i < j < k ==> !less((#[trigger] top@[i]).logit, (#[trigger] top@[j]).logit),
        (forall|i: int| 0 <= i < k ==> !is_nan(#[trigger] scores@[i])) ==> forall|id: int, i: int|
            #![trigger scores@[id], top@[i]]
            0 <= id < scores@.len() && 0 <= i < k && less(top@[i].logit, scores@[id]) ==> exists|
                j: int,
            |
                0 <= j < i && (#[trigger] top@[j]).token_id == id,
{
    let ghost numbers = all_numbers(scores@.take(k as int));
    // The best so far, in ascending order: the lowest comes first.
    let mut heap: Vec<(u32, u32)> = Vec::with_capacity(k);
    let mut i: usize = 0;
    while i < k
        invariant
            i <= k <= scores@.len() <= 0x1_0000_0000,
            numbers == all_numbers(scores@.take(k as int)),
            heap@.len() == i,
            keeps_some(heap@, scores@, i as int),
            numbers ==> keeps_best(heap@, scores@, i as int),
            forall|id: int| 0 <= id < i ==> #[trigger] has_id(heap@, id),
        decreases k - i,
    {
        let ghost before = heap@;
        assert(scores@.take(k as int)[i as int] == scores@[i as int]);
        let entry: (u32, u32) = (scores[i], i as u32);
        heap.insert(0, entry);
        let ghost mid = heap@;
        assert(mid =~= before.insert(0, entry));
        assert(mid.skip(1) =~= before);
        assert forall|j: int| numbers && 0 <= j < mid.len() implies !is_nan(
            (#[trigger] mid[j]).0,
        ) by {
            if j > 0 {
                assert(mid[j] == before[j - 1]);
            }
        }
        assert(distinct_ids(mid)) by {
            assert forall|a: int, b: int| 0 <= a < b < mid.len() implies (#[trigger] mid[a]).1 != (
            #[trigger] mid[b]).1 by {
                assert(mid[b] == before[b - 1]);
                if a > 0 {
                    assert(mid[a] == before[a - 1]);
                }
            }
        }
        sift_down(&mut heap);
        proof {
            let pos = choose|pos: int|
                0 <= pos < mid.len() && heap@ == #[trigger] mid.skip(1).insert(pos, mid[0]);
            placed_entries(mid, heap@, pos);
            assert forall|id: int| 0 <= id < i + 1 implies #[trigger] has_id(heap@, id) by {
                if id < i {
                    assert(has_id(before, id));
                    let j = choose|j: int| 0 <= j < before.len() && (#[trigger] before[j]).1 == id;
                    assert(mid[j + 1].1 == id);
                } else {
                    assert(mid[0].1 == id);
                }
                assert(has_id(mid, id));
            }
            assert forall|j: int| 0 <= j < heap@.len() implies (#[trigger] heap@[j]).1 < i + 1
                && heap@[j].0 == scores@[heap@[j].1 as int] && (numbers ==> !is_nan(
                heap@[j].0,
            )) by {
                let m = choose|m: int| 0 <= m < mid.len() && heap@[j] == #[trigger] mid[m];
                if m > 0 {
                    assert(mid[m] == before[m - 1]);
                }
            }
        }
        i += 1;
    }
    while i < scores.len()
        invariant
            0 < k <= i <= scores@.len() <= 0x1_0000_0000,
            heap@.len() == k,
            keeps_some(heap@, scores@, i as int),
            numbers ==> keeps_best(heap@, scores@, i as int),
        decreases scores.len() - i,
    {
        let ghost before = heap@;
        if lt(heap[0].0, scores[i]) {
            let entry: (u32, u32) = (scores[i], i as u32);
            heap.set(0, entry);
            let ghost mid = heap@;
            assert(mid.skip(1) =~= before.skip(1));
            assert forall|a: int, b: int|
                numbers && 0 <= a <= b < mid.skip(1).len() implies order_key(
                (#[trigger] mid.skip(1)[a]).0,
            ) <= order_key((#[trigger] mid.skip(1)[b]).0) by {
                assert(mid.skip(1)[a] == before[a + 1] && mid.skip(1)[b] == before[b + 1]);
            }
            assert forall|j: int| numbers && 0 <= j < mid.len() implies !is_nan(
                (#[trigger] mid[j]).0,
            ) by {
                if j > 0 {
                    assert(mid[j] == before[j]);
                }
            }
            assert(distinct_ids(mid)) by {
                assert forall|a: int, b: int| 0 <= a < b < mid.len() implies (#[trigger] mid[a]).1
                    != (#[trigger] mid[b]).1 by {
                    assert(mid[b] == before[b]);
                    if a > 0 {
                        assert(mid[a] == before[a]);
                    }
                }
            }
            sift_down(&mut heap);
            proof {
                let pos = choose|pos: int|
                    0 <= pos < mid.len() && heap@ == #[trigger] mid.skip(1).insert(pos, mid[0]);
                placed_entries(mid, heap@, pos);
                assert forall|j: int| 0 <= j < heap@.len() implies {
                    &&& (#[trigger] heap@[j]).1 < i + 1
                    &&& heap@[j].0 == scores@[heap@[j].1 as int]
                    &&& numbers ==> !is_nan(heap@[j].0) && order_key(before[0].0) <= order_key(
                        heap@[j].0,
                    )
                } by {
                    let m = choose|m: int| 0 <= m < mid.len() && heap@[j] == #[trigger] mid[m];
                    if m > 0 {
                        assert(mid[m] == before[m]);
                        assert(numbers ==> order_key(before[0].0) <= order_key(before[m].0));
                    }
                }
                assert forall|id: int|
                    numbers && 0 <= id < i + 1 && !is_nan(scores@[id]) && !(#[trigger] has_id(
                        heap@,
                        id,
                    )) implies order_key(scores@[id]) <= order_key(heap@[0].0) by {
                    assert(!has_id(mid, id));
                    if id == i {
                        assert(mid[0].1 == id);
                    } else if has_id(before, id) {
                        let j = choose|j: int|
                            0 <= j < before.len() && (#[trigger] before[j]).1 == id;
                        if j > 0 {
                            assert(mid[j].1 == id);
                        }
                        assert(scores@[id] == before[0].0);
                        assert(order_key(before[0].0) <= order_key(heap@[0].0));
                    } else {
                        assert(order_key(scores@[id]) <= order_key(before[0].0));
                        assert(order_key(before[0].0) <= order_key(heap@[0].0));
                    }
                }
            }
        } else {
            proof {
                assert(numbers ==> !is_nan(before[0].0));
                assert(numbers ==> is_nan(scores@[i as int]) || order_key(scores@[i as int])
                    <= order_key(heap@[0].0));
            }
        }
        i += 1;
    }
    let mut top: Vec<SparseLogit> = Vec::with_capacity(k);
    let mut left: usize = k;
    while left > 0
        invariant
            left <= k,
            heap@.len() == k,
            top@.len() == k - left,
            forall|j: int|
                0 <= j < top@.len() ==> (#[trigger] top@[j]).token_id == heap@[k - 1 - j].1
                    && top@[j].logit == heap@[k - 1 - j].0,
        decreases left,
    {
        left -= 1;
        top.push(SparseLogit { token_id: heap[left].1, logit: heap[left].0 });
    }
    proof {
        let t = top@;
        assert forall|a: int, b: int| 0 <= a < b < t.len() implies (#[trigger] t[a]).token_id != (
        #[trigger] t[b]).token_id by {
            assert(heap@[k - 1 - b].1 != heap@[k - 1 - a].1);
        }
        assert forall|a: int| 0 <= a < t.len() implies (#[trigger] t[a]).token_id < scores@.len()
            && t[a].logit == scores@[t[a].token_id as int] by {
            assert(heap@[k - 1 - a].1 < scores@.len());
        }
        if numbers {
            listed_from_the_back(t, heap@, scores@, k as int);
        }
        if forall|i: int| 0 <= i < k ==> !is_nan(#[trigger] scores@[i]) {
            assert(all_numbers(scores@.take(k as int)));
            better_score_is_listed_before(t, scores@, k as int);
        }
    }
    top
}

/// Higher scores come first: of two listed tokens the earlier one has no lower
/// score, and a token with a higher score than a listed one is listed before
/// it.
pub proof fn better_score_is_listed_before(top: Seq<SparseLogit>, scores: Seq<u32>, k: int)
    requires
        is_top_k(top, scores, k),
    ensures
        top.len() == k,
        forall|i: int, j: int|
            0 <= i < j < k ==> !less((#[trigger] top[i]).logit, (#[trigger] top[j]).logit),
        forall|id: int, i: int|
            #![trigger scores[id], top[i]]
            0 <= id < scores.len() && 0 <= i < k && less(top[i].logit, scores[id]) ==> exists|
                j: int,
            |
                0 <= j < i && (#[trigger] top[j]).token_id == id,
{
    assert forall|id: int, i: int|
        #![trigger scores[id], top[i]]
        0 <= id < scores.len() && 0 <= i < k && less(top[i].logit, scores[id]) implies exists|
        j: int,
    |
        0 <= j < i && (#[trigger] top[j]).token_id == id by {
        if forall|j: int| 0 <= j < top.len() ==> (#[trigger] top[j]).token_id != id {
            assert(!less(top[i].logit, scores[id]));
        } else {
            let j = choose|j: int| 0 <= j < top.len() && (#[trigger] top[j]).token_id == id;
            assert(top[j].logit == scores[id]);
            if j > i {
                assert(order_key(top[i].logit) >= order_key(top[j].logit));
            }
        }
    }
}

/// No token has a higher score than the one listed first.
pub proof fn best_comes_first(top: Seq<SparseLogit>, scores: Seq<u32>, k: int, id: int)
    requires
        is_top_k(top, scores, k),
        0 < k,
        0 <= id < scores.len(),
    ensures
        !less(top[0].logit, scores[id]),
{
    let listed = exists|j: int| 0 <= j < top.len() && (#[trigger] top[j]).token_id == id;
    if listed {
        let j = choose|j: int| 0 <= j < top.len() && (#[trigger] top[j]).token_id == id;
        if j > 0 {
            assert(order_key(top[0].logit) >= order_key(top[j].logit));
        }
    } else {
        assert(forall|j: int| 0 <= j < top.len() ==> (#[trigger] top[j]).token_id != id);
        assert(!less(top[0].logit, scores[id]));
    }
}

/// The weights that combine the reservoir state with the read-outs.
#[derive(Debug, Clone)]
pub struct HolographicMemoryAggregator {
    pub w_out: Matrix,
}

impl HolographicMemoryAggregator {
    pub open spec fn well_formed(&self) -> bool {
        self.w_out.has_shape(D_MODEL as int, N_RES as int)
    }

    pub fn new(w_out: Matrix) -> (out: Self)
        requires
            w_out.has_shape(D_MODEL as int, N_RES as int),
        ensures
            out.well_formed(),
            out.w_out == w_out,
    {
        HolographicMemoryAggregator { w_out }
    }
}

/// The weights that score the vocabulary.
#[derive(Debug, Clone)]
pub struct SparseOutputHead {
    /// One row for each token.
    pub output_embeddings: Matrix,
    /// One value for each token.
    pub output_bias: Vec<u32>,
}

impl SparseOutputHead {
    pub open spec fn well_formed(&self) -> bool {
        &&& self.output_embeddings.has_shape(VOCAB_SIZE as int, D_MODEL as int)
        &&& self.output_bias@.len() == VOCAB_SIZE
    }

    pub fn new(output_embeddings: Matrix, output_bias: Vec<u32>) -> (out: Self)
        requires
            output_embeddings.has_shape(VOCAB_SIZE as int, D_MODEL as int),
            output_bias@.len() == VOCAB_SIZE,
        ensures
            out.well_formed(),
            out.output_embeddings == output_embeddings,
            out.output_bias == output_bias,
    {
        SparseOutputHead { output_embeddings, output_bias }
    }

    /// The best tokens, given the score of every token.
    pub fn top_k_logits(&self, scores: &[u32]) -> (top: Vec<SparseLogit>)
        requires
            scores@.len() == VOCAB_SIZE,
        ensures
            lists_tokens(top@, scores@, TOP_K as int),
            all_numbers(scores@.take(TOP_K as int)) ==> is_top_k(top@, scores@, TOP_K as int),
            top@.len() == 200,
            forall|i: int, j: int|
                0 <= i < j < 200 ==> (#[trigger] top@[i]).token_id != (#[trigger] top@[j]).token_id,
            forall|i: int|
                0 <= i < 200 ==> (#[trigger] top@[i]).token_id < scores@.len() && top@[i].logit
                    == scores@[top@[i].token_id as int],
            (forall|i: int| 0 <= i < 200 ==> !is_nan(#[trigger] scores@[i])) ==> forall|i: int, j: int|
                0 <= i < j < 200 ==> !less((#[trigger] top@[i]).logit, (#[trigger] top@[j]).logit),
            (forall|i: int| 0 <= i < 200 ==> !is_nan(#[trigger] scores@[i])) ==> forall|id: int, i: int|
                #![trigger scores@[id], top@[i]]
                0 <= id < scores@.len() && 0 <= i < 200 && less(top@[i].logit, scores@[id]) ==> exists|
                    j: int,
                |
                    0 <= j < i && (#[trigger] top@[j]).token_id == id,
    {
        top_k_indices_and_values(scores, TOP_K)
    }
}

/// Aggregator and output head.
#[derive(Debug, Clone)]
pub struct PredictionHead {
    pub aggregator: HolographicMemoryAggregator,
    pub head: SparseOutputHead,
}

impl PredictionHead {
    pub open spec fn well_formed(&self) -> bool {
        self.aggregator.well_formed() && self.head.well_formed()
    }

    pub fn new(aggregator: HolographicMemoryAggregator, head: SparseOutputHead) -> (out: Self)
        ensures
            out.aggregator == aggregator,
            out.head == head,
    {
        PredictionHead { aggregator, head }
    }
}

/// Scores are numbers where none of them is NaN.
pub proof fn numbers_are_not_nan(scores: Seq<u32>)
    ensures
        all_numbers(scores) <==> forall|i: int|
            0 <= i < scores.len() ==> !is_nan(#[trigger] scores[i]),
{
}

} // verus!
