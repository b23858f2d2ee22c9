//! Choosing the next token from the best-scored ones.
//!
//! Weights and thresholds are 32-bit floating-point values, each held as its
//! bit pattern.

use crate::ieee::{le, lt};
use vstd::prelude::*;

verus! {

use crate::ieee::{at_most, is_nan, less, order_key};
use crate::memory::all_numbers;

/// The highest temperature at which the best token is simply taken: 0.00001.
pub const GREEDY_TEMPERATURE: u32 = 0x3727_C5AC;

/// `i` comes before `j` where the weights are sorted from the highest down:
/// equal weights keep their order.
pub open spec fn comes_before(weights: Seq<u32>, i: int, j: int) -> bool {
    ||| order_key(weights[i]) > order_key(weights[j])
    ||| order_key(weights[i]) == order_key(weights[j]) && i < j
}

/// `order` lists the first `n` indices from the highest weight down.
pub open spec fn sorts(order: Seq<usize>, weights: Seq<u32>, n: int) -> bool {
    &&& order.len() == n
    &&& forall|i: int| 0 <= i < order.len() ==> (#[trigger] order[i]) < n
    &&& forall|i: int, j: int|
        0 <= i < j < order.len() ==> comes_before(
            weights,
            #[trigger] order[i] as int,
            #[trigger] order[j] as int,
        )
}

/// Whether sampling at this temperature just takes the best token.
pub fn is_greedy(temperature: u32) -> (greedy: bool)
    ensures
        greedy == at_most(temperature, GREEDY_TEMPERATURE),
        greedy <==> temperature <= 0x3727_C5AC || 0x8000_0000 <= temperature <= 0xff80_0000,
{
    le(temperature, GREEDY_TEMPERATURE)
}

/// The best token of each sequence: the first of its row.
pub fn greedy_tokens(rows: &[Vec<u32>]) -> (out: Vec<u32>)
    requires
        forall|b: int| 0 <= b < rows@.len() ==> (#[trigger] rows@[b])@.len() > 0,
    ensures
        out@.len() == rows@.len(),
        forall|b: int| 0 <= b < out@.len() ==> #[trigger] out@[b] == rows@[b]@[0],
{
    let mut out: Vec<u32> = Vec::with_capacity(rows.len());
    let mut i: usize = 0;
    while i < rows.len()
        invariant
            i <= rows.len(),
            forall|b: int| 0 <= b < rows@.len() ==> (#[trigger] rows@[b])@.len() > 0,
            out@.len() == i,
            forall|b: int| 0 <= b < i ==> #[trigger] out@[b] == rows@[b]@[0],
        decreases rows.len() - i,
    {
        assert(rows@[i as int]@.len() > 0);
        out.push(rows[i][0]);
        i += 1;
    }
    out
}

/// The indices of `weights` from the highest weight down; equal weights keep
/// their order.
pub fn by_descending_weight(weights: &[u32]) -> (order: Vec<usize>)
    requires
        all_numbers(weights@),
    ensures
        sorts(order@, weights@, weights@.len() as int),
        order@.len() == weights@.len(),
        forall|i: int| 0 <= i < order@.len() ==> (#[trigger] order@[i]) < weights@.len(),
        forall|i: int, j: int|
            0 <= i < j < order@.len() ==> {
                let first = weights@[#[trigger] order@[i] as int];
                let second = weights@[#[trigger] order@[j] as int];
                less(second, first) || !less(first, second) && order@[i] < order@[j]
            },
{
    let mut order: Vec<usize> = Vec::with_capacity(weights.len());
    let mut n: usize = 0;
    while n < weights.len()
        invariant
            n <= weights.len(),
            all_numbers(weights@),
            sorts(order@, weights@, n as int),
        decreases weights.len() - n,
    {
        let ghost before = order@;
        let mut at: usize = n;
        while at > 0 && lt(weights[order[at - 1]], weights[n])
            invariant
                n < weights.len(),
                at <= n,
                all_numbers(weights@),
                order@ == before,
                sorts(before, weights@, n as int),
                forall|j: int|
                    at <= j < n ==> order_key(weights@[#[trigger] before[j] as int]) < order_key(
                        weights@[n as int],
                    ),
            decreases at,
        {
            at -= 1;
        }
        proof {
            assert forall|j: int| 0 <= j < at implies order_key(
                weights@[#[trigger] before[j] as int],
            ) >= order_key(weights@[n as int]) by {
                assert(!is_nan(weights@[before[at - 1] as int]) && !is_nan(weights@[n as int]));
                if j < at - 1 {
                    assert(comes_before(weights@, before[j] as int, before[at - 1] as int));
                }
            }
        }
        order.insert(at, n);
        proof {
            let after = order@;
            assert(after =~= before.insert(at as int, n));
            assert forall|i: int| 0 <= i < after.len() implies (#[trigger] after[i]) < n + 1 by {
                if i < at {
                    assert(after[i] == before[i]);
                } else if i > at {
                    assert(after[i] == before[i - 1]);
                }
            }
            assert forall|i: int, j: int| 0 <= i < j < after.len() implies comes_before(
                weights@,
                #[trigger] after[i] as int,
                #[trigger] after[j] as int,
            ) by {
                if j < at {
                    assert(after[i] == before[i] && after[j] == before[j]);
                } else if i > at {
                    assert(after[i] == before[i - 1] && after[j] == before[j - 1]);
                } else if j == at {
                    assert(after[i] == before[i]);
                } else if i == at {
                    assert(after[j] == before[j - 1]);
                } else {
                    assert(after[i] == before[i] && after[j] == before[j - 1]);
                }
            }
        }
        n += 1;
    }
    order
}

/// How many of the tokens, the most probable first, are kept: as few as have
/// together a probability of at least `top_p`, or all where none do.
/// `cumulative[i]` is the probability of the first `i + 1` together.
pub fn nucleus_len(cumulative: &[u32], top_p: u32) -> (n: usize)
    requires
        cumulative@.len() > 0,
    ensures
        1 <= n <= cumulative@.len(),
        forall|i: int| 0 <= i < n - 1 ==> !at_most(top_p, #[trigger] cumulative@[i]),
        n < cumulative@.len() ==> at_most(top_p, cumulative@[n - 1]),
{
    let mut n: usize = 1;
    while n < cumulative.len() && !le(top_p, cumulative[n - 1])
        invariant
            1 <= n <= cumulative@.len(),
            forall|i: int| 0 <= i < n - 1 ==> !at_most(top_p, #[trigger] cumulative@[i]),
        decreases cumulative.len() - n,
    {
        n += 1;
    }
    n
}

/// The first place at which the accumulated weight reaches `target`, or the
/// last place where none does.
pub fn draw(accumulated: &[u32], target: u32) -> (at: usize)
    requires
        accumulated@.len() > 0,
    ensures
        at < accumulated@.len(),
        forall|i: int| 0 <= i < at ==> !at_most(target, #[trigger] accumulated@[i]),
        at < accumulated@.len() - 1 ==> at_most(target, accumulated@[at as int]),
{
    let mut at: usize = 0;
    while at < accumulated.len() - 1 && !le(target, accumulated[at])
        invariant
            at < accumulated@.len(),
            forall|i: int| 0 <= i < at ==> !at_most(target, #[trigger] accumulated@[i]),
        decreases accumulated.len() - at,
    {
        at += 1;
    }
    at
}

/// The token that `target` draws from the kept ones. `order` lists the tokens
/// from the most probable down, and `accumulated[i]` is the weight of the first
/// `i + 1` of them together.
pub fn drawn_token(tokens: &[u32], order: &[usize], accumulated: &[u32], target: u32) -> (token:
    u32)
    requires
        0 < accumulated@.len() <= order@.len(),
        forall|i: int| 0 <= i < order@.len() ==> (#[trigger] order@[i]) < tokens@.len(),
    ensures
        exists|at: int|
            {
                &&& 0 <= at < accumulated@.len()
                &&& token == tokens@[#[trigger] order@[at] as int]
                &&& forall|i: int| 0 <= i < at ==> !at_most(target, #[trigger] accumulated@[i])
                &&& at < accumulated@.len() - 1 ==> at_most(target, accumulated@[at])
            },
{
    let at: usize = draw(accumulated, target);
    assert(order@[at as int] < tokens@.len());
    tokens[order[at]]
}

/// A sorted order lists every index once, a higher weight before a lower one,
/// and of equal weights the earlier index first.
pub proof fn order_is_descending(order: Seq<usize>, weights: Seq<u32>, n: int, i: int, j: int)
    requires
        0 <= n <= weights.len(),
        all_numbers(weights),
        sorts(order, weights, n),
        0 <= i < j < n,
    ensures
        order.len() == n,
        order[i] < n,
        order[i] != order[j],
        !less(weights[order[i] as int], weights[order[j] as int]),
        less(weights[order[j] as int], weights[order[i] as int]) || order[i] < order[j],
        forall|id: usize| id < n ==> #[trigger] order.contains(id),
{
    lists_every_index(order, weights, n);
    assert(comes_before(weights, order[i] as int, order[j] as int));
    assert(order[i] < n && order[j] < n);
    assert forall|id: usize| id < n implies #[trigger] order.contains(id) by {
        assert(lists(order, id as int));
        let at = choose|at: int| 0 <= at < order.len() && #[trigger] order[at] == id as int;
        assert(order[at] == id);
    }
}

/// Sorting is settled: there is one order only in which the weights can come.
pub proof fn descending_order_is_unique(
    first: Seq<usize>,
    second: Seq<usize>,
    weights: Seq<u32>,
    n: int,
)
    requires
        0 <= n,
        sorts(first, weights, n),
        sorts(second, weights, n),
    ensures
        first == second,
{
    lists_every_index(first, weights, n);
    lists_every_index(second, weights, n);
    assert forall|k: int| 0 <= k < n implies first[k] == second[k] by {
        same_at(first, second, weights, n, k);
    }
    assert(first =~= second);
}

spec fn lists(order: Seq<usize>, id: int) -> bool {
    exists|i: int| 0 <= i < order.len() && #[trigger] order[i] == id
}

/// An order of `n` different indices below `n` lists every one of them.
proof fn lists_every_index(order: Seq<usize>, weights: Seq<u32>, n: int)
    requires
        0 <= n,
        sorts(order, weights, n),
    ensures
        forall|id: int| 0 <= id < n ==> #[trigger] lists(order, id),
{
    let ids = order.map_values(|x: usize| x as int);
    assert(ids.no_duplicates()) by {
        assert forall|i: int, j: int|
            0 <= i < ids.len() && 0 <= j < ids.len() && i != j implies ids[i] != ids[j] by {
            if i < j {
                assert(comes_before(weights, order[i] as int, order[j] as int));
            } else {
                assert(comes_before(weights, order[j] as int, order[i] as int));
            }
        }
    }
    ids.unique_seq_to_set();
    let all = vstd::set_lib::set_int_range(0, n);
    vstd::set_lib::lemma_int_range(0, n);
    assert(ids.to_set().subset_of(all)) by {
        assert forall|x: int| ids.to_set().contains(x) implies all.contains(x) by {
            let i = choose|i: int| 0 <= i < ids.len() && ids[i] == x;
            assert(order[i] < n);
        }
    }
    vstd::set_lib::lemma_subset_equality(ids.to_set(), all);
    assert forall|id: int| 0 <= id < n implies #[trigger] lists(order, id) by {
        assert(all.contains(id));
        assert(ids.to_set().contains(id));
        let i = choose|i: int| 0 <= i < ids.len() && ids[i] == id;
        assert(order[i] == id);
    }
}

/// Two orders agree at `k`, given that they agree before it.
proof fn same_at(
    first: Seq<usize>,
    second: Seq<usize>,
    weights: Seq<u32>,
    n: int,
    k: int,
)
    requires
        0 <= k < n,
        sorts(first, weights, n),
        sorts(second, weights, n),
        forall|id: int| 0 <= id < n ==> #[trigger] lists(first, id),
        forall|id: int| 0 <= id < n ==> #[trigger] lists(second, id),
    ensures
        first[k] == second[k],
    decreases k,
{
    assert forall|j: int| 0 <= j < k implies first[j] == second[j] by {
        same_at(first, second, weights, n, j);
    }
    let a = first[k] as int;
    let b = second[k] as int;
    assert(lists(second, a) && lists(first, b));
    let in_second = choose|i: int| 0 <= i < n && #[trigger] second[i] == a;
    let in_first = choose|i: int| 0 <= i < n && #[trigger] first[i] == b;
    if a != b {
        if in_second < k {
            assert(first[in_second] == a);
            assert(comes_before(weights, first[in_second] as int, first[k] as int));
        }
        if in_first < k {
            assert(second[in_first] == b);
            assert(comes_before(weights, second[in_first] as int, second[k] as int));
        }
        assert(comes_before(weights, second[k] as int, second[in_second] as int));
        assert(comes_before(weights, first[k] as int, first[in_first] as int));
    }
}

/// The nucleus is the shortest one: fewer tokens do not reach the threshold
/// together, unless a single one is kept, and all are kept where none reach it.
pub proof fn nucleus_is_shortest(cumulative: Seq<u32>, top_p: u32, n: int, m: int)
    requires
        1 <= n <= cumulative.len(),
        forall|i: int| 0 <= i < n - 1 ==> !at_most(top_p, #[trigger] cumulative[i]),
        n < cumulative.len() ==> at_most(top_p, cumulative[n - 1]),
        1 <= m <= cumulative.len(),
        forall|i: int| 0 <= i < m - 1 ==> !at_most(top_p, #[trigger] cumulative[i]),
        m < cumulative.len() ==> at_most(top_p, cumulative[m - 1]),
    ensures
        n == m,
{
}

} // verus!
