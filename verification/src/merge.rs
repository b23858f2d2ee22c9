//! Rewriting a sequence of token ids by merge rules.

use vstd::prelude::*;

verus! {

/// A learned merge: fuse `(left, right)` into `result`.
#[derive(Debug, Clone, Copy, PartialEq, Eq, Structural)]
pub struct MergeRule {
    pub left: u32,
    pub right: u32,
    pub result: u32,
}

/// `ids` scanned from the left, each `(left, right)` met replaced by `result`.
pub open spec fn merged(ids: Seq<u32>, left: u32, right: u32, result: u32) -> Seq<u32>
    decreases ids.len(),
{
    if ids.len() == 0 {
        Seq::empty()
    } else if ids.len() >= 2 && ids[0] == left && ids[1] == right {
        seq![result] + merged(ids.skip(2), left, right, result)
    } else {
        seq![ids[0]] + merged(ids.skip(1), left, right, result)
    }
}

/// `ids` rewritten by every rule in turn, the first rule first.
pub open spec fn merged_by(rules: Seq<MergeRule>, ids: Seq<u32>) -> Seq<u32>
    decreases rules.len(),
{
    if rules.len() == 0 {
        ids
    } else {
        let rule = rules.last();
        merged(merged_by(rules.drop_last(), ids), rule.left, rule.right, rule.result)
    }
}

/// The ids of single bytes.
pub open spec fn byte_ids(text: Seq<u8>) -> Seq<u32> {
    text.map_values(|b: u8| b as u32)
}

/// What `ids` stand for when id `i` stands for `table[i]`.
pub open spec fn expansion(table: Seq<Seq<u8>>, ids: Seq<u32>) -> Seq<u8>
    decreases ids.len(),
{
    if ids.len() == 0 {
        Seq::empty()
    } else {
        table[ids[0] as int] + expansion(table, ids.skip(1))
    }
}

/// Every id of `ids` is below `bound`.
pub open spec fn ids_below(ids: Seq<u32>, bound: int) -> bool {
    forall|i: int| 0 <= i < ids.len() ==> (#[trigger] ids[i]) < bound
}

/// Replace every occurrence of consecutive `(left, right)` in `ids` with
/// `result`, in one pass from the left.
pub fn apply_merge(ids: &[u32], left: u32, right: u32, result: u32) -> (out: Vec<u32>)
    ensures
        out@ == merged(ids@, left, right, result),
{
    let mut out: Vec<u32> = Vec::with_capacity(ids.len());
    let mut i: usize = 0;
    assert(ids@.skip(0) =~= ids@);
    assert(out@ + merged(ids@, left, right, result) =~= merged(ids@, left, right, result));
    while i < ids.len()
        invariant
            i <= ids.len(),
            out@ + merged(ids@.skip(i as int), left, right, result) == merged(
                ids@,
                left,
                right,
                result,
            ),
        decreases ids.len() - i,
    {
        let ghost rest = ids@.skip(i as int);
        if ids.len() - i >= 2 && ids[i] == left && ids[i + 1] == right {
            assert(rest.skip(2) =~= ids@.skip(i + 2));
            out.push(result);
            i += 2;
        } else {
            assert(rest.skip(1) =~= ids@.skip(i + 1));
            out.push(ids[i]);
            i += 1;
        }
    }
    out
}

/// The ids of the single bytes of `text`.
pub fn to_byte_ids(text: &[u8]) -> (ids: Vec<u32>)
    ensures
        ids@ == byte_ids(text@),
        ids@.len() == text@.len(),
        forall|i: int| 0 <= i < text@.len() ==> #[trigger] ids@[i] == text@[i],
{
    let mut ids: Vec<u32> = Vec::with_capacity(text.len());
    let mut i: usize = 0;
    while i < text.len()
        invariant
            i <= text.len(),
            ids@ == byte_ids(text@.take(i as int)),
        decreases text.len() - i,
    {
        ids.push(text[i] as u32);
        i += 1;
    }
    assert(text@.take(i as int) =~= text@);
    ids
}

/// A merge never lengthens a sequence, and shortens one in which the pair
/// stands at `at`.
pub proof fn merge_shortens(ids: Seq<u32>, left: u32, right: u32, result: u32, at: int)
    ensures
        merged(ids, left, right, result).len() <= ids.len(),
        0 <= at < ids.len() - 1 && ids[at] == left && ids[at + 1] == right ==> merged(
            ids,
            left,
            right,
            result,
        ).len() < ids.len(),
    decreases ids.len(),
{
    if ids.len() == 0 {
    } else if ids.len() >= 2 && ids[0] == left && ids[1] == right {
        merge_shortens(ids.skip(2), left, right, result, -1);
    } else {
        merge_shortens(ids.skip(1), left, right, result, at - 1);
    }
}

/// A merge leaves no id that was not there, but for its own result.
pub proof fn merge_keeps_ids_below(
    ids: Seq<u32>,
    left: u32,
    right: u32,
    result: u32,
    bound: int,
)
    requires
        ids_below(ids, bound),
        result < bound,
    ensures
        ids_below(merged(ids, left, right, result), bound),
    decreases ids.len(),
{
    if ids.len() == 0 {
    } else if ids.len() >= 2 && ids[0] == left && ids[1] == right {
        merge_keeps_ids_below(ids.skip(2), left, right, result, bound);
    } else {
        merge_keeps_ids_below(ids.skip(1), left, right, result, bound);
    }
}

/// A merge whose result stands for what its pair stands for does not change
/// what the sequence stands for.
pub proof fn merge_keeps_expansion(
    table: Seq<Seq<u8>>,
    ids: Seq<u32>,
    left: u32,
    right: u32,
    result: u32,
)
    requires
        table[result as int] == table[left as int] + table[right as int],
    ensures
        expansion(table, merged(ids, left, right, result)) == expansion(table, ids),
    decreases ids.len(),
{
    if ids.len() == 0 {
    } else if ids.len() >= 2 && ids[0] == left && ids[1] == right {
        let rest = merged(ids.skip(2), left, right, result);
        merge_keeps_expansion(table, ids.skip(2), left, right, result);
        assert((seq![result] + rest).skip(1) =~= rest);
        assert(ids.skip(1).skip(1) =~= ids.skip(2));
        assert(expansion(table, ids.skip(1)) == table[right as int] + expansion(
            table,
            ids.skip(2),
        ));
    } else {
        let rest = merged(ids.skip(1), left, right, result);
        merge_keeps_expansion(table, ids.skip(1), left, right, result);
        assert((seq![ids[0]] + rest).skip(1) =~= rest);
    }
}

/// A sequence of fewer than two ids is left alone by every rule.
pub proof fn short_is_final(rules: Seq<MergeRule>, ids: Seq<u32>)
    requires
        ids.len() < 2,
    ensures
        merged_by(rules, ids) == ids,
    decreases rules.len(),
{
    if rules.len() > 0 {
        short_is_final(rules.drop_last(), ids);
        let rule = rules.last();
        if ids.len() == 1 {
            assert(ids.skip(1) =~= Seq::<u32>::empty());
            assert(merged(ids.skip(1), rule.left, rule.right, rule.result) =~= Seq::<u32>::empty());
            assert(seq![ids[0]] + Seq::<u32>::empty() =~= ids);
        } else {
            assert(ids =~= Seq::<u32>::empty());
        }
    }
}

/// Rewriting by two lists of rules, one after the other, is rewriting by their
/// concatenation.
pub proof fn merged_by_concat(first: Seq<MergeRule>, then_by: Seq<MergeRule>, ids: Seq<u32>)
    ensures
        merged_by(first + then_by, ids) == merged_by(then_by, merged_by(first, ids)),
    decreases then_by.len(),
{
    if then_by.len() == 0 {
        assert(first + then_by =~= first);
    } else {
        merged_by_concat(first, then_by.drop_last(), ids);
        assert((first + then_by).drop_last() =~= first + then_by.drop_last());
    }
}

/// Rules never lengthen a sequence.
pub proof fn merged_by_shortens(rules: Seq<MergeRule>, ids: Seq<u32>)
    ensures
        merged_by(rules, ids).len() <= ids.len(),
    decreases rules.len(),
{
    if rules.len() > 0 {
        merged_by_shortens(rules.drop_last(), ids);
        let rule = rules.last();
        merge_shortens(
            merged_by(rules.drop_last(), ids),
            rule.left,
            rule.right,
            rule.result,
            -1,
        );
    }
}

/// Single bytes stand for themselves wherever the table begins with the 256
/// single-byte entries.
pub proof fn byte_ids_expand(table: Seq<Seq<u8>>, text: Seq<u8>)
    requires
        table.len() >= 256,
        forall|b: int| 0 <= b < 256 ==> #[trigger] table[b] == seq![b as u8],
    ensures
        expansion(table, byte_ids(text)) == text,
    decreases text.len(),
{
    if text.len() > 0 {
        byte_ids_expand(table, text.skip(1));
        assert(byte_ids(text).skip(1) =~= byte_ids(text.skip(1)));
        assert(table[text[0] as int] == seq![text[0]]);
        assert(seq![text[0]] + text.skip(1) =~= text);
    } else {
        assert(text =~= Seq::<u8>::empty());
    }
}

/// `a` is nowhere followed by `b`.
pub open spec fn lacks_pair(ids: Seq<u32>, a: u32, b: u32) -> bool {
    forall|i: int| 0 <= i < ids.len() - 1 ==> !(#[trigger] ids[i] == a && ids[i + 1] == b)
}

/// Putting `first` before a sequence adds one pair of neighbours.
proof fn lacks_pair_from_front(first: u32, rest: Seq<u32>, a: u32, b: u32)
    requires
        lacks_pair(rest, a, b),
        rest.len() > 0 ==> !(first == a && rest[0] == b),
    ensures
        lacks_pair(seq![first] + rest, a, b),
{
    let whole = seq![first] + rest;
    assert forall|i: int| 0 <= i < whole.len() - 1 implies !(#[trigger] whole[i] == a && whole[i
        + 1] == b) by {
        if i > 0 {
            assert(whole[i] == rest[i - 1]);
            assert(whole[i + 1] == rest[i]);
        } else {
            assert(whole[1] == rest[0]);
        }
    }
}

/// A merge begins with what the sequence began with, or with its own result.
proof fn merged_begins(ids: Seq<u32>, left: u32, right: u32, result: u32)
    requires
        ids.len() > 0,
    ensures
        ({
            let out = merged(ids, left, right, result);
            &&& out.len() > 0
            &&& out[0] == result || out[0] == ids[0]
        }),
{
}

/// A merge leaves none of its pairs, unless its result is one of the two.
pub proof fn merge_removes_pair(ids: Seq<u32>, left: u32, right: u32, result: u32)
    requires
        result != left,
        result != right,
    ensures
        lacks_pair(merged(ids, left, right, result), left, right),
    decreases ids.len(),
{
    if ids.len() > 0 {
        let (first, tail) = if ids.len() >= 2 && ids[0] == left && ids[1] == right {
            (result, ids.skip(2))
        } else {
            (ids[0], ids.skip(1))
        };
        merge_removes_pair(tail, left, right, result);
        if tail.len() > 0 {
            merged_begins(tail, left, right, result);
        }
        lacks_pair_from_front(first, merged(tail, left, right, result), left, right);
    }
}

/// A merge makes no pair that its result does not belong to.
pub proof fn merge_makes_no_other_pair(
    ids: Seq<u32>,
    left: u32,
    right: u32,
    result: u32,
    a: u32,
    b: u32,
)
    requires
        lacks_pair(ids, a, b),
        result != a,
        result != b,
    ensures
        lacks_pair(merged(ids, left, right, result), a, b),
    decreases ids.len(),
{
    if ids.len() > 0 {
        let n: int = if ids.len() >= 2 && ids[0] == left && ids[1] == right {
            2
        } else {
            1
        };
        let first = if n == 2 {
            result
        } else {
            ids[0]
        };
        let tail = ids.skip(n);
        assert forall|i: int| 0 <= i < tail.len() - 1 implies !(#[trigger] tail[i] == a && tail[i
            + 1] == b) by {
            assert(tail[i] == ids[n + i]);
            assert(tail[i + 1] == ids[n + i + 1]);
        }
        merge_makes_no_other_pair(tail, left, right, result, a, b);
        if tail.len() > 0 {
            merged_begins(tail, left, right, result);
            assert(tail[0] == ids[n]);
            assert(!(ids[0] == a && ids[1] == b));
        }
        lacks_pair_from_front(first, merged(tail, left, right, result), a, b);
    }
}

/// The id of a single byte is the byte.
pub proof fn byte_ids_are_bytes(text: Seq<u8>)
    ensures
        byte_ids(text).len() == text.len(),
        forall|i: int| 0 <= i < text.len() ==> #[trigger] byte_ids(text)[i] == text[i],
{
}

/// A sequence in which the pair stands nowhere is left alone.
pub proof fn merge_leaves_other_ids(ids: Seq<u32>, left: u32, right: u32, result: u32)
    requires
        forall|i: int|
            0 <= i < ids.len() - 1 ==> !(#[trigger] ids[i] == left && ids[i + 1] == right),
    ensures
        merged(ids, left, right, result) == ids,
    decreases ids.len(),
{
    if ids.len() > 0 {
        let tail = ids.skip(1);
        assert forall|i: int| 0 <= i < tail.len() - 1 implies !(#[trigger] tail[i] == left
            && tail[i + 1] == right) by {
            assert(tail[i] == ids[i + 1] && tail[i + 1] == ids[i + 2]);
        }
        merge_leaves_other_ids(tail, left, right, result);
        if ids.len() >= 2 {
            assert(!(ids[0] == left && ids[1] == right));
        }
        assert(merged(ids, left, right, result) =~= ids);
    } else {
        assert(merged(ids, left, right, result) =~= ids);
    }
}

/// Where the pair first stands at `at`, everything before it stays, the pair
/// becomes the result, and what follows the pair is merged by itself: of pairs
/// that overlap, the one further to the left is taken.
pub proof fn merge_takes_leftmost_pair(
    ids: Seq<u32>,
    left: u32,
    right: u32,
    result: u32,
    at: int,
)
    requires
        0 <= at < ids.len() - 1,
        ids[at] == left,
        ids[at + 1] == right,
        forall|i: int| 0 <= i < at ==> !(#[trigger] ids[i] == left && ids[i + 1] == right),
    ensures
        merged(ids, left, right, result) == ids.take(at).push(result) + merged(
            ids.skip(at + 2),
            left,
            right,
            result,
        ),
    decreases ids.len(),
{
    if at == 0 {
        assert(ids.take(0).push(result) =~= seq![result]);
    } else {
        let tail = ids.skip(1);
        assert(!(ids[0] == left && ids[1] == right));
        assert forall|i: int| 0 <= i < at - 1 implies !(#[trigger] tail[i] == left && tail[i + 1]
            == right) by {
            assert(tail[i] == ids[i + 1] && tail[i + 1] == ids[i + 2]);
        }
        merge_takes_leftmost_pair(tail, left, right, result, at - 1);
        assert(tail.skip(at + 1) =~= ids.skip(at + 2));
        assert(seq![ids[0]] + tail.take(at - 1).push(result) =~= ids.take(at).push(result));
        assert(merged(ids, left, right, result) =~= ids.take(at).push(result) + merged(
            ids.skip(at + 2),
            left,
            right,
            result,
        ));
    }
}

/// Rules are applied one after the other: no rule changes nothing, and one more
/// rule merges what the rules before it gave.
pub proof fn rules_apply_in_turn(rules: Seq<MergeRule>, rule: MergeRule, ids: Seq<u32>)
    ensures
        merged_by(Seq::empty(), ids) == ids,
        merged_by(rules.push(rule), ids) == merged(
            merged_by(rules, ids),
            rule.left,
            rule.right,
            rule.result,
        ),
{
    assert(rules.push(rule).drop_last() =~= rules);
}

/// What ids stand for is what each stands for, one after the other.
pub proof fn expansion_is_of_each(table: Seq<Seq<u8>>, ids: Seq<u32>)
    ensures
        expansion(table, ids) == ids.map_values(|id: u32| table[id as int]).flatten(),
    decreases ids.len(),
{
    if ids.len() > 0 {
        expansion_is_of_each(table, ids.skip(1));
        let parts = ids.map_values(|id: u32| table[id as int]);
        assert(parts.drop_first() =~= ids.skip(1).map_values(|id: u32| table[id as int]));
    }
}

} // verus!
