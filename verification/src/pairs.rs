//! Counting adjacent pairs of token ids.

use rayon::iter::ParallelIterator;
use rayon::slice::ParallelSlice;
use std::collections::HashMap;
use vstd::prelude::*;

verus! {

broadcast use vstd::std_specs::hash::group_hash_axioms;

/// The number of positions at which `a` is followed by `b`.
pub open spec fn pair_count(ids: Seq<u32>, a: u32, b: u32) -> nat
    decreases ids.len(),
{
    if ids.len() < 2 {
        0
    } else {
        pair_count(ids.drop_last(), a, b) + if ids[ids.len() - 2] == a && ids.last() == b {
            1nat
        } else {
            0nat
        }
    }
}

/// The two ids of a pair in one number, the left one in the upper half.
pub open spec fn pair_key(a: u32, b: u32) -> u64 {
    (a * 0x1_0000_0000 + b) as u64
}

pub open spec fn left_of(key: u64) -> u32 {
    (key / 0x1_0000_0000) as u32
}

pub open spec fn right_of(key: u64) -> u32 {
    (key % 0x1_0000_0000) as u32
}

/// The count that a tally holds for a key; 0 where it holds none.
pub open spec fn tallied(counts: Map<u64, u32>, key: u64) -> nat {
    if counts.contains_key(key) {
        counts[key] as nat
    } else {
        0
    }
}

/// `counts` holds exactly the pairs that occur in `ids`, with their counts.
pub open spec fn counts_pairs(counts: Map<u64, u32>, ids: Seq<u32>) -> bool {
    forall|key: u64|
        #![trigger counts.contains_key(key)]
        {
            &&& tallied(counts, key) == pair_count(ids, left_of(key), right_of(key))
            &&& counts.contains_key(key) ==> counts[key] > 0
        }
}

/// The pair `(a, b)` goes before `(c, d)` where both occur equally often: it has
/// the smaller sum of ids or, where the sums are equal too, the smaller left id.
pub open spec fn goes_before(a: u32, b: u32, c: u32, d: u32) -> bool {
    a + b < c + d || a + b == c + d && a <= c
}

/// No pair occurs more often in `ids` than `(a, b)`, and of those that occur as
/// often it goes first.
pub open spec fn is_best_pair(ids: Seq<u32>, a: u32, b: u32) -> bool {
    &&& pair_count(ids, a, b) > 0
    &&& forall|c: u32, d: u32|
        #![trigger pair_count(ids, c, d)]
        {
            ||| pair_count(ids, c, d) < pair_count(ids, a, b)
            ||| pair_count(ids, c, d) == pair_count(ids, a, b) && goes_before(a, b, c, d)
        }
}

/// A sequence has one best pair only.
pub proof fn best_pair_is_unique(ids: Seq<u32>, a: u32, b: u32, c: u32, d: u32)
    requires
        is_best_pair(ids, a, b),
        is_best_pair(ids, c, d),
    ensures
        a == c,
        b == d,
{
}

/// `acc` with one more occurrence of the pair `window`.
pub fn tally(acc: HashMap<u64, u32>, window: &[u32]) -> (out: HashMap<u64, u32>)
    requires
        window@.len() == 2,
        tallied(acc@, pair_key(window@[0], window@[1])) < u32::MAX,
    ensures
        out@ == acc@.insert(
            pair_key(window@[0], window@[1]),
            (tallied(acc@, pair_key(window@[0], window@[1])) + 1) as u32,
        ),
        ({
            let key = (window@[0] * 0x1_0000_0000 + window@[1]) as u64;
            &&& out@.contains_key(key)
            &&& out@[key] == (if acc@.contains_key(key) {
                acc@[key] + 1
            } else {
                1
            })
            &&& forall|other: u64|
                #![trigger out@.contains_key(other)]
                other != key ==> {
                    &&& out@.contains_key(other) <==> acc@.contains_key(other)
                    &&& acc@.contains_key(other) ==> out@[other] == acc@[other]
                }
        }),
{
    let mut out = acc;
    let key: u64 = window[0] as u64 * 0x1_0000_0000 + window[1] as u64;
    let count: u32 = match out.get(&key) {
        Some(c) => *c,
        None => 0,
    };
    out.insert(key, count + 1);
    out
}

/// The counts of both tallies added up.
pub fn merge_tallies(first: HashMap<u64, u32>, second: HashMap<u64, u32>) -> (out: HashMap<
    u64,
    u32,
>)
    requires
        forall|key: u64| #[trigger]
            tallied(first@, key) + tallied(second@, key) <= u32::MAX,
    ensures
        forall|key: u64|
            #![trigger out@.contains_key(key)]
            out@.contains_key(key) <==> first@.contains_key(key) || second@.contains_key(key),
        forall|key: u64|
            #![trigger tallied(out@, key)]
            tallied(out@, key) == tallied(first@, key) + tallied(second@, key),
        forall|key: u64|
            #![trigger out@.contains_key(key)]
            out@.contains_key(key) ==> out@[key] == (if first@.contains_key(key) {
                first@[key] as int
            } else {
                0
            }) + (if second@.contains_key(key) {
                second@[key] as int
            } else {
                0
            }),
{
    let mut out = first;
    let ghost mut joined: Set<u64> = Set::empty();
    for entry in it: second.iter()
        invariant
            it.seq().no_duplicates(),
            it.seq().len() == second@.dom().len(),
            forall|i: int|
                #![trigger it.seq()[i]]
                0 <= i < it.seq().len() ==> second@.contains_key(*it.seq()[i].0)
                    && second@[*it.seq()[i].0] == *it.seq()[i].1,
            forall|key: u64|
                #![trigger joined.contains(key)]
                joined.contains(key) <==> exists|i: int|
                    0 <= i < it.index() && *(#[trigger] it.seq()[i]).0 == key,
            forall|key: u64| #[trigger]
                tallied(first@, key) + tallied(second@, key) <= u32::MAX,
            forall|key: u64|
                #![trigger out@.contains_key(key)]
                out@.contains_key(key) <==> first@.contains_key(key) || joined.contains(key),
            forall|key: u64|
                #![trigger tallied(out@, key)]
                tallied(out@, key) == tallied(first@, key) + if joined.contains(key) {
                    tallied(second@, key)
                } else {
                    0
                },
    {
        let (key, count) = entry;
        let sum: u32 = match out.get(key) {
            Some(c) => *c,
            None => 0,
        };
        assert(!joined.contains(*key));
        assert(sum == tallied(out@, *key));
        assert(*count == tallied(second@, *key));
        let ghost before = out@;
        out.insert(*key, sum + *count);
        proof {
            assert forall|k: u64| k != *key implies #[trigger] tallied(out@, k) == tallied(
                before,
                k,
            ) by {}
            joined = joined.insert(*key);
        }
    }
    proof {
        assert forall|key: u64| second@.contains_key(key) implies #[trigger] joined.contains(
            key,
        ) by {}
        assert forall|key: u64|
            #![trigger out@.contains_key(key)]
            out@.contains_key(key) implies out@[key] == (if first@.contains_key(key) {
            first@[key] as int
        } else {
            0
        }) + (if second@.contains_key(key) {
            second@[key] as int
        } else {
            0
        }) by {
            assert(out@[key] == tallied(out@, key));
            assert(tallied(out@, key) == tallied(first@, key) + tallied(second@, key));
        }
    }
    out
}

/// The pair of `counts` with the highest count and, among those, the smallest
/// sum of ids, and among those, the smallest left id. So it does not matter in
/// which order the map is walked.
pub fn most_frequent(counts: &HashMap<u64, u32>) -> (best: Option<(u32, u32)>)
    ensures
        best is None <==> counts@.dom().is_empty(),
        match best {
            Some((a, b)) => {
                &&& counts@.contains_key(pair_key(a, b))
                &&& forall|key: u64|
                    #![trigger counts@.contains_key(key)]
                    counts@.contains_key(key) ==> {
                        ||| counts@[key] < counts@[pair_key(a, b)]
                        ||| counts@[key] == counts@[pair_key(a, b)] && goes_before(
                            a,
                            b,
                            left_of(key),
                            right_of(key),
                        )
                    }
            },
            None => true,
        },
        best matches Some((a, b)) ==> forall|c: u32, d: u32|
            #![trigger counts@.contains_key(pair_key(c, d))]
            counts@.contains_key(pair_key(c, d)) ==> {
                let most = counts@[pair_key(a, b)];
                let count = counts@[pair_key(c, d)];
                ||| count < most
                ||| count == most && a + b < c + d
                ||| count == most && a + b == c + d && a <= c
            },
{
    let mut best: Option<(u32, u32)> = None;
    let mut best_count: u32 = 0;
    let mut best_sum: u64 = 0;
    for entry in it: counts.iter()
        invariant
            it.seq().len() == counts@.dom().len(),
            forall|i: int|
                #![trigger it.seq()[i]]
                0 <= i < it.seq().len() ==> counts@.contains_key(*it.seq()[i].0)
                    && counts@[*it.seq()[i].0] == *it.seq()[i].1,
            forall|key: u64| #[trigger]
                counts@.contains_key(key) ==> exists|i: int|
                    0 <= i < it.seq().len() && *(#[trigger] it.seq()[i]).0 == key,
            best is None <==> it.index() == 0,
            match best {
                Some((a, b)) => {
                    &&& counts@.contains_key(pair_key(a, b))
                    &&& best_count == counts@[pair_key(a, b)]
                    &&& best_sum == a + b
                    &&& forall|i: int|
                        #![trigger it.seq()[i]]
                        0 <= i < it.index() ==> {
                            ||| *it.seq()[i].1 < best_count
                            ||| *it.seq()[i].1 == best_count && goes_before(
                                a,
                                b,
                                left_of(*it.seq()[i].0),
                                right_of(*it.seq()[i].0),
                            )
                        }
                },
                None => true,
            },
    {
        let (key, count) = entry;
        let a: u32 = (*key / 0x1_0000_0000) as u32;
        let b: u32 = (*key % 0x1_0000_0000) as u32;
        let sum: u64 = a as u64 + b as u64;
        let better = match best {
            None => true,
            Some((left, _)) => *count > best_count || (*count == best_count && (sum < best_sum || (
            sum == best_sum && a < left))),
        };
        if better {
            proof {
                pair_of_key(*key);
            }
            best = Some((a, b));
            best_count = *count;
            best_sum = sum;
        }
    }
    proof {
        assert forall|c: u32, d: u32|
            #![trigger counts@.contains_key(pair_key(c, d))]
            left_of(pair_key(c, d)) == c && right_of(pair_key(c, d)) == d by {
            key_of_pair(c, d);
        }
    }
    best
}

/// A key is the key of its two halves.
pub proof fn pair_of_key(key: u64)
    ensures
        pair_key(left_of(key), right_of(key)) == key,
{
}

/// The halves of a key are the ids it was made of.
pub proof fn key_of_pair(a: u32, b: u32)
    ensures
        left_of(pair_key(a, b)) == a,
        right_of(pair_key(a, b)) == b,
{
}

/// A pair that is counted stands somewhere; its position is returned.
pub proof fn counted_pair_occurs(ids: Seq<u32>, a: u32, b: u32) -> (at: int)
    requires
        pair_count(ids, a, b) > 0,
    ensures
        0 <= at < ids.len() - 1,
        ids[at] == a,
        ids[at + 1] == b,
    decreases ids.len(),
{
    if ids[ids.len() - 2] == a && ids.last() == b {
        ids.len() - 2
    } else {
        counted_pair_occurs(ids.drop_last(), a, b)
    }
}

/// No pair occurs more often than there are neighbours.
pub proof fn pair_count_bound(ids: Seq<u32>, a: u32, b: u32)
    ensures
        pair_count(ids, a, b) <= ids.len(),
        ids.len() > 0 ==> pair_count(ids, a, b) < ids.len(),
    decreases ids.len(),
{
    if ids.len() >= 2 {
        pair_count_bound(ids.drop_last(), a, b);
    }
}

/// Counting may be split anywhere: the windows of `ids` are those that end
/// before `at`, and those that begin at `at - 1` or later.
pub proof fn pair_count_splits(ids: Seq<u32>, a: u32, b: u32, at: int)
    requires
        1 <= at <= ids.len(),
    ensures
        pair_count(ids, a, b) == pair_count(ids.take(at), a, b) + pair_count(
            ids.skip(at - 1),
            a,
            b,
        ),
    decreases ids.len(),
{
    if at == ids.len() {
        assert(ids.take(at) =~= ids);
    } else {
        pair_count_splits(ids.drop_last(), a, b, at);
        assert(ids.drop_last().take(at) =~= ids.take(at));
        assert(ids.drop_last().skip(at - 1) =~= ids.skip(at - 1).drop_last());
    }
}

/// The best entry of a full count is a best pair, and there is one wherever two
/// ids stand side by side.
pub proof fn best_entry_is_best_pair(counts: Map<u64, u32>, ids: Seq<u32>)
    requires
        counts_pairs(counts, ids),
    ensures
        ids.len() >= 2 ==> !counts.dom().is_empty(),
        forall|a: u32, b: u32|
            #![trigger is_best_pair(ids, a, b)]
            is_best_pair(ids, a, b) <==> {
                &&& counts.contains_key(pair_key(a, b))
                &&& forall|key: u64|
                    #![trigger counts.contains_key(key)]
                    counts.contains_key(key) ==> {
                        ||| counts[key] < counts[pair_key(a, b)]
                        ||| counts[key] == counts[pair_key(a, b)] && goes_before(
                            a,
                            b,
                            left_of(key),
                            right_of(key),
                        )
                    }
            },
{
    if ids.len() >= 2 {
        let a = ids[ids.len() - 2];
        let b = ids.last();
        key_of_pair(a, b);
        assert(pair_count(ids, a, b) > 0);
        assert(counts.contains_key(pair_key(a, b)));
    }
    assert forall|a: u32, b: u32|
        #![trigger is_best_pair(ids, a, b)]
        is_best_pair(ids, a, b) <==> {
            &&& counts.contains_key(pair_key(a, b))
            &&& forall|key: u64|
                #![trigger counts.contains_key(key)]
                counts.contains_key(key) ==> {
                    ||| counts[key] < counts[pair_key(a, b)]
                    ||| counts[key] == counts[pair_key(a, b)] && goes_before(
                        a,
                        b,
                        left_of(key),
                        right_of(key),
                    )
                }
        } by {
        key_of_pair(a, b);
        let top = counts.contains_key(pair_key(a, b)) && forall|key: u64|
            #![trigger counts.contains_key(key)]
            counts.contains_key(key) ==> {
                ||| counts[key] < counts[pair_key(a, b)]
                ||| counts[key] == counts[pair_key(a, b)] && goes_before(
                    a,
                    b,
                    left_of(key),
                    right_of(key),
                )
            };
        if top {
            assert forall|c: u32, d: u32|
                #![trigger pair_count(ids, c, d)]
                {
                    ||| pair_count(ids, c, d) < pair_count(ids, a, b)
                    ||| pair_count(ids, c, d) == pair_count(ids, a, b) && goes_before(a, b, c, d)
                } by {
                key_of_pair(c, d);
                assert(counts.contains_key(pair_key(c, d)) || tallied(counts, pair_key(c, d)) == 0);
            }
        }
    }
}

/// `par_windows(2).fold(..).reduce(..)` of rayon: every window of two
/// neighbouring ids is handed to `tally` exactly once, and the tallies of the
/// parts into which the windows were split are joined by `merge_tallies`. So
/// what comes out holds, for each pair that occurs, the number of its
/// occurrences.
#[verifier::external_body]
pub(crate) fn count_pairs(ids: &[u32]) -> (counts: HashMap<u64, u32>)
    requires
        ids@.len() <= u32::MAX,
    ensures
        counts_pairs(counts@, ids@),
{
    ids.par_windows(2).fold(HashMap::new, tally).reduce(HashMap::new, merge_tallies)
}

/// The key of a pair has the left id in its upper half and the right one in its
/// lower half.
pub proof fn key_halves(a: u32, b: u32)
    ensures
        pair_key(a, b) == a * 0x1_0000_0000 + b,
{
}

/// Two neighbours are one pair, and fewer ids are none; with `pair_count_splits`
/// this says what every count is.
pub proof fn pair_count_of_two(x: u32, y: u32, a: u32, b: u32)
    ensures
        pair_count(Seq::empty(), a, b) == 0,
        pair_count(seq![x], a, b) == 0,
        pair_count(seq![x, y], a, b) == (if x == a && y == b {
            1nat
        } else {
            0nat
        }),
{
    assert(seq![x, y].drop_last() =~= seq![x]);
    assert(pair_count(seq![x], a, b) == 0);
}

/// One more id at the end adds one occurrence of the pair that it completes and
/// none of any other.
pub proof fn pair_count_grows(ids: Seq<u32>, x: u32, a: u32, b: u32)
    ensures
        pair_count(ids.push(x), a, b) == pair_count(ids, a, b) + (if ids.len() > 0 && ids.last()
            == a && x == b {
            1nat
        } else {
            0nat
        }),
{
    assert(ids.push(x).drop_last() =~= ids);
}

/// A pair that stands somewhere is counted.
pub proof fn occurring_pair_is_counted(ids: Seq<u32>, at: int)
    requires
        0 <= at < ids.len() - 1,
    ensures
        pair_count(ids, ids[at], ids[at + 1]) > 0,
    decreases ids.len(),
{
    if at < ids.len() - 2 {
        occurring_pair_is_counted(ids.drop_last(), at);
    }
}

/// The best pair occurs, no pair occurs more often, and of those that occur as
/// often none has a smaller sum of ids, nor with the same sum a smaller left
/// id.
pub proof fn best_pair_wins(ids: Seq<u32>, a: u32, b: u32, c: u32, d: u32)
    requires
        is_best_pair(ids, a, b),
    ensures
        exists|at: int| 0 <= at < ids.len() - 1 && #[trigger] ids[at] == a && ids[at + 1] == b,
        pair_count(ids, c, d) <= pair_count(ids, a, b),
        pair_count(ids, c, d) == pair_count(ids, a, b) ==> a + b <= c + d,
        pair_count(ids, c, d) == pair_count(ids, a, b) && a + b == c + d ==> a <= c,
{
    let at = counted_pair_occurs(ids, a, b);
    assert(ids[at] == a && ids[at + 1] == b);
}

/// A pair that occurs, and that no other one beats by its count, the sum of its
/// ids or its left id, is the best one.
pub proof fn unbeaten_pair_is_best(ids: Seq<u32>, at: int)
    requires
        0 <= at < ids.len() - 1,
        forall|c: u32, d: u32|
            #![trigger pair_count(ids, c, d)]
            {
                let a = ids[at];
                let b = ids[at + 1];
                let most = pair_count(ids, a, b);
                ||| pair_count(ids, c, d) < most
                ||| pair_count(ids, c, d) == most && a + b < c + d
                ||| pair_count(ids, c, d) == most && a + b == c + d && a <= c
            },
    ensures
        is_best_pair(ids, ids[at], ids[at + 1]),
{
    occurring_pair_is_counted(ids, at);
}

} // verus!
