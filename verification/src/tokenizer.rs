//! Byte-level BPE tokenizer.
//!
//! The base vocabulary is the 256 single bytes. Training fuses the most
//! frequent adjacent pair of tokens into a new one, again and again; encoding
//! applies the learned merges in the same order.
//!
//! Ids 0 to 255 are single bytes, higher ids are merges in order of creation.

use crate::merge::{apply_merge, to_byte_ids, MergeRule};
use crate::pairs::{count_pairs, most_frequent};
use crate::vocab::Vocab;
use vstd::prelude::*;

verus! {

use crate::merge::{byte_ids, expansion, ids_below, lacks_pair, merged_by};
use crate::pairs::is_best_pair;
use crate::vocab::map_of;

#[derive(Debug, Clone)]
pub struct BpeTokenizer {
    /// Token bytes and their ids.
    pub vocab: Vocab,
    /// Merge rules in the order in which encoding applies them.
    pub merges: Vec<MergeRule>,
    /// The bytes of each id.
    pub id_to_bytes: Vec<Vec<u8>>,
}

/// The contents of a list of byte strings.
pub open spec fn contents(strings: Seq<Vec<u8>>) -> Seq<Seq<u8>> {
    strings.map_values(|s: Vec<u8>| s@)
}

/// Each entry of a table beside its own index.
pub open spec fn indexed(table: Seq<Seq<u8>>) -> Seq<(Seq<u8>, u32)> {
    table.map(|i: int, bytes: Seq<u8>| (bytes, i as u32))
}

/// The table entry at `id`, or the last one where `id` is past the end.
pub open spec fn entry_or_last(table: Seq<Seq<u8>>, id: u32) -> Seq<u8> {
    if id < table.len() {
        table[id as int]
    } else {
        table.last()
    }
}

/// The bytes of all ids, one after the other.
pub open spec fn decoded(table: Seq<Seq<u8>>, ids: Seq<u32>) -> Seq<u8>
    decreases ids.len(),
{
    if ids.len() == 0 {
        Seq::empty()
    } else {
        decoded(table, ids.drop_last()) + entry_or_last(table, ids.last())
    }
}

/// Each id as many times as its token has bytes.
pub open spec fn coverage(table: Seq<Seq<u8>>, ids: Seq<u32>) -> Seq<u32>
    decreases ids.len(),
{
    if ids.len() == 0 {
        Seq::empty()
    } else {
        coverage(table, ids.drop_last()) + Seq::new(
            table[ids.last() as int].len(),
            |i: int| ids.last(),
        )
    }
}

/// The number of merges that training may learn.
pub open spec fn merge_budget(num_merges: int, max_vocab_size: int) -> int {
    let room = if max_vocab_size > 256 {
        max_vocab_size - 256
    } else {
        0
    };
    if num_merges < room {
        num_merges
    } else {
        room
    }
}

/// Each rule fuses a best pair of the corpus as the rules before it leave it,
/// and gets the next free id.
pub open spec fn learned_from(corpus: Seq<u8>, merges: Seq<MergeRule>) -> bool {
    forall|k: int|
        0 <= k < merges.len() ==> {
            let rule = #[trigger] merges[k];
            &&& is_best_pair(merged_by(merges.take(k), byte_ids(corpus)), rule.left, rule.right)
            &&& rule.result == 256 + k
        }
}

/// The table of 256 single bytes.
pub open spec fn base_table() -> Seq<Seq<u8>> {
    Seq::new(256, |b: int| seq![b as u8])
}

/// The table with the bytes of each merge behind the single bytes.
pub open spec fn table_of(merges: Seq<MergeRule>) -> Seq<Seq<u8>>
    decreases merges.len(),
{
    if merges.len() == 0 {
        base_table()
    } else {
        let table = table_of(merges.drop_last());
        let rule = merges.last();
        table.push(table[rule.left as int] + table[rule.right as int])
    }
}

/// Each rule fuses two ids that exist before it into the next free id.
pub open spec fn rules_in_order(merges: Seq<MergeRule>) -> bool {
    forall|k: int|
        0 <= k < merges.len() ==> {
            let rule = #[trigger] merges[k];
            &&& rule.left < 256 + k
            &&& rule.right < 256 + k
            &&& rule.result == 256 + k
        }
}

/// What training gives for a corpus and its limits.
pub open spec fn trained_on(
    tok: BpeTokenizer,
    corpus: Seq<u8>,
    num_merges: int,
    max_vocab_size: int,
) -> bool {
    &&& tok.well_formed()
    &&& learned_from(corpus, tok.merges@)
    &&& tok.merges@.len() <= merge_budget(num_merges, max_vocab_size)
    &&& tok.merges@.len() < merge_budget(num_merges, max_vocab_size) ==> merged_by(
        tok.merges@,
        byte_ids(corpus),
    ).len() < 2
}

impl BpeTokenizer {
    /// The bytes of each id.
    pub open spec fn table(&self) -> Seq<Seq<u8>> {
        contents(self.id_to_bytes@)
    }

    /// The rules are in order, the table is theirs, and the vocabulary is the
    /// inverse of the table.
    pub open spec fn well_formed(&self) -> bool {
        &&& rules_in_order(self.merges@)
        &&& self.table() == table_of(self.merges@)
        &&& self.vocab.well_formed()
        &&& self.vocab@ == map_of(indexed(self.table()))
    }

    /// Initialise with the 256-byte base vocabulary.
    pub fn new_base() -> (out: Self)
        ensures
            out.well_formed(),
            out.merges@ == Seq::<MergeRule>::empty(),
            out.table() == base_table(),
            out.id_to_bytes@.len() == 256,
            forall|b: int| 0 <= b < 256 ==> (#[trigger] out.id_to_bytes@[b])@ == seq![b as u8],
            forall|b: u8| #[trigger] out.vocab@.contains_key(seq![b]) && out.vocab@[seq![b]] == b,
    {
        let mut vocab = Vocab::new();
        let mut id_to_bytes: Vec<Vec<u8>> = Vec::with_capacity(256);
        let mut b: u32 = 0;
        assert(indexed(contents(id_to_bytes@)) =~= Seq::<(Seq<u8>, u32)>::empty());
        while b < 256
            invariant
                b <= 256,
                id_to_bytes@.len() == b,
                contents(id_to_bytes@) == base_table().take(b as int),
                vocab.well_formed(),
                vocab@ == map_of(indexed(contents(id_to_bytes@))),
            decreases 256 - b,
        {
            let ghost before = indexed(contents(id_to_bytes@));
            let key: Vec<u8> = vec![b as u8];
            let copy: Vec<u8> = vec![b as u8];
            vocab.insert(copy, b);
            id_to_bytes.push(key);
            proof {
                assert(key@ =~= seq![b as u8]);
                assert(copy@ =~= seq![b as u8]);
                assert(contents(id_to_bytes@) =~= base_table().take(b + 1));
                let after = indexed(contents(id_to_bytes@));
                assert(after.drop_last() =~= before);
                assert(after.last() == (key@, b));
            }
            b += 1;
        }
        assert(base_table().take(256) =~= base_table());
        let out = BpeTokenizer { vocab, merges: Vec::new(), id_to_bytes };
        proof {
            assert forall|b: int| 0 <= b < 256 implies (#[trigger] out.id_to_bytes@[b])@
                == seq![b as u8] by {
                assert(out.table()[b] == base_table()[b]);
            }
            assert forall|b: u8| #[trigger]
                out.vocab@.contains_key(seq![b]) && out.vocab@[seq![b]] == b by {
                let listing = indexed(out.table());
                assert(out.table()[b as int] == seq![b]);
                assert(listing[b as int] == (seq![b], b as u32));
                assert forall|j: int| b < j < listing.len() implies (#[trigger] listing[j]).0
                    != listing[b as int].0 by {
                    assert(out.table()[j] == seq![j as u8]);
                    assert(listing[j].0[0] == j as u8);
                    assert(listing[b as int].0[0] == b);
                }
                crate::vocab::last_entry_counts(listing, b as int);
            }
        }
        out
    }

    /// Add the token that fuses `left` and `right`, and return its id.
    fn learn(&mut self, left: u32, right: u32) -> (id: u32)
        requires
            old(self).well_formed(),
            left < 256 + old(self).merges@.len(),
            right < 256 + old(self).merges@.len(),
            256 + old(self).merges@.len() <= u32::MAX,
        ensures
            final(self).well_formed(),
            id == 256 + old(self).merges@.len(),
            final(self).merges@ == old(self).merges@.push(MergeRule { left, right, result: id }),
    {
        proof {
            table_length(self.merges@);
        }
        let ghost rules = self.merges@;
        let ghost table = self.table();
        let id: u32 = self.id_to_bytes.len() as u32;
        let mut bytes: Vec<u8> = Vec::new();
        bytes.extend_from_slice(&self.id_to_bytes[left as usize]);
        bytes.extend_from_slice(&self.id_to_bytes[right as usize]);
        let mut copy: Vec<u8> = Vec::new();
        copy.extend_from_slice(&bytes);
        assert(bytes@ =~= table[left as int] + table[right as int]);
        assert(copy@ =~= bytes@);
        self.vocab.insert(copy, id);
        self.id_to_bytes.push(bytes);
        self.merges.push(MergeRule { left, right, result: id });
        proof {
            assert(self.merges@.drop_last() =~= rules);
            assert(self.table() =~= table.push(bytes@));
            assert(indexed(self.table()).drop_last() =~= indexed(table));
            assert(forall|k: int| 0 <= k < rules.len() ==> self.merges@[k] == rules[k]);
        }
        id
    }

    /// Train on `corpus`: in each of at most `num_merges` steps, fuse the most
    /// frequent adjacent pair into a new token. Of equally frequent ones it is
    /// that with the smallest sum of ids, then that with the smallest left id,
    /// so that training always gives the same result. The vocabulary never
    /// grows beyond `max_vocab_size`, and training ends early when a single
    /// token is left. Ids and counts have 32 bits, which bounds the corpus.
    pub fn train(corpus: &[u8], num_merges: usize, max_vocab_size: usize) -> (out: Self)
        requires
            corpus@.len() + 255 <= u32::MAX,
        ensures
            trained_on(out, corpus@, num_merges as int, max_vocab_size as int),
            out.merges@.len() <= num_merges,
            out.merges@.len() > 0 ==> 256 + out.merges@.len() <= max_vocab_size,
            out.merges@.len() < num_merges && 256 + out.merges@.len() < max_vocab_size
                ==> merged_by(out.merges@, byte_ids(corpus@)).len() < 2,
            forall|k: int|
                0 <= k < out.merges@.len() ==> {
                    let rule = #[trigger] out.merges@[k];
                    let before = merged_by(out.merges@.take(k), byte_ids(corpus@));
                    &&& rule.result == 256 + k
                    &&& is_best_pair(before, rule.left, rule.right)
                },
            out.id_to_bytes@.len() == 256 + out.merges@.len(),
            forall|b: int| 0 <= b < 256 ==> (#[trigger] out.id_to_bytes@[b])@ == seq![b as u8],
            forall|k: int|
                0 <= k < out.merges@.len() ==> {
                    let rule = #[trigger] out.merges@[k];
                    &&& rule.left < 256 + k
                    &&& rule.right < 256 + k
                    &&& out.id_to_bytes@[256 + k]@ == out.id_to_bytes@[rule.left as int]@
                        + out.id_to_bytes@[rule.right as int]@
                },
    {
        let mut tok = Self::new_base();
        let room: usize = max_vocab_size.saturating_sub(256);
        let effective: usize = if num_merges < room {
            num_merges
        } else {
            room
        };
        let mut ids = to_byte_ids(corpus);
        let mut done: usize = 0;
        while done < effective && ids.len() >= 2
            invariant
                corpus@.len() + 255 <= u32::MAX,
                done <= effective,
                done == tok.merges@.len(),
                tok.well_formed(),
                learned_from(corpus@, tok.merges@),
                ids@ == merged_by(tok.merges@, byte_ids(corpus@)),
                ids_below(ids@, 256 + done),
                ids@.len() + done <= corpus@.len(),
            decreases effective - done,
        {
            let counts = count_pairs(&ids);
            proof {
                crate::pairs::best_entry_is_best_pair(counts@, ids@);
            }
            let (left, right) = match most_frequent(&counts) {
                Some(pair) => pair,
                None => {
                    return tok;
                },
            };
            assert(is_best_pair(ids@, left, right));
            let ghost at = crate::pairs::counted_pair_occurs(ids@, left, right);
            let ghost before = tok.merges@;
            let id: u32 = tok.learn(left, right);
            proof {
                crate::merge::merge_shortens(ids@, left, right, id, at);
                crate::merge::merge_keeps_ids_below(ids@, left, right, id, 256 + done + 1);
                let after = tok.merges@;
                assert(after.drop_last() =~= before);
                assert forall|k: int| 0 <= k < after.len() implies {
                    let rule = #[trigger] after[k];
                    &&& is_best_pair(
                        merged_by(after.take(k), byte_ids(corpus@)),
                        rule.left,
                        rule.right,
                    )
                    &&& rule.result == 256 + k
                } by {
                    assert(after.take(k) =~= before.take(k));
                    if k < before.len() {
                        assert(after[k] == before[k]);
                    } else {
                        assert(before.take(k) =~= before);
                    }
                }
            }
            ids = apply_merge(&ids, left, right, id);
            done += 1;
        }
        proof {
            entries_in_full(tok);
        }
        tok
    }

    /// Encode a byte slice into a sequence of token ids, applying the merge
    /// rules in order.
    pub fn encode(&self, text: &[u8]) -> (ids: Vec<u32>)
        ensures
            ids@ == merged_by(self.merges@, byte_ids(text@)),
            self.merges@.len() == 0 ==> ids@.len() == text@.len() && forall|i: int|
                0 <= i < text@.len() ==> #[trigger] ids@[i] == text@[i],
    {
        let mut ids = to_byte_ids(text);
        let mut k: usize = 0;
        while k < self.merges.len() && ids.len() >= 2
            invariant
                k <= self.merges.len(),
                ids@ == merged_by(self.merges@.take(k as int), byte_ids(text@)),
            decreases self.merges.len() - k,
        {
            let rule = self.merges[k];
            ids = apply_merge(&ids, rule.left, rule.right, rule.result);
            assert(self.merges@.take(k + 1).drop_last() =~= self.merges@.take(k as int));
            k += 1;
        }
        proof {
            let rest = self.merges@.skip(k as int);
            crate::merge::merged_by_concat(self.merges@.take(k as int), rest, byte_ids(text@));
            assert(self.merges@.take(k as int) + rest =~= self.merges@);
            if ids@.len() < 2 {
                crate::merge::short_is_final(rest, ids@);
            } else {
                assert(rest =~= Seq::<MergeRule>::empty());
            }
        }
        ids
    }

    /// Encode, and give each byte position the id of the token that covers it.
    /// Where the tokens do not add up to the length of the text, each position
    /// has the id of its own byte.
    pub fn encode_aligned(&self, text: &[u8]) -> (aligned: Vec<u32>)
        requires
            ids_below(
                merged_by(self.merges@, byte_ids(text@)),
                self.id_to_bytes@.len() as int,
            ),
        ensures
            aligned@ == ({
                let covering = coverage(self.table(), merged_by(self.merges@, byte_ids(text@)));
                if covering.len() == text@.len() {
                    covering
                } else {
                    byte_ids(text@)
                }
            }),
            ({
                let ids = merged_by(self.merges@, byte_ids(text@));
                let covering = ids.map_values(
                    |id: u32| Seq::new(self.id_to_bytes@[id as int]@.len(), |i: int| id),
                ).flatten();
                aligned@ == if covering.len() == text@.len() {
                    covering
                } else {
                    byte_ids(text@)
                }
            }),
    {
        let ids = self.encode(text);
        let mut aligned: Vec<u32> = Vec::with_capacity(text.len());
        let mut k: usize = 0;
        while k < ids.len()
            invariant
                k <= ids.len(),
                ids_below(ids@, self.id_to_bytes@.len() as int),
                aligned@ == coverage(self.table(), ids@.take(k as int)),
            decreases ids.len() - k,
        {
            let id: u32 = ids[k];
            let width: usize = self.id_to_bytes[id as usize].len();
            let ghost before = aligned@;
            let mut i: usize = 0;
            while i < width
                invariant
                    i <= width,
                    aligned@ == before + Seq::new(i as nat, |j: int| id),
                decreases width - i,
            {
                aligned.push(id);
                i += 1;
            }
            proof {
                let longer = ids@.take(k + 1);
                assert(longer.drop_last() =~= ids@.take(k as int));
                assert(aligned@ =~= coverage(self.table(), longer));
            }
            k += 1;
        }
        assert(ids@.take(k as int) =~= ids@);
        proof {
            coverage_is_of_each(self.table(), ids@);
            assert(ids@.map_values(
                |id: u32| Seq::new(self.table()[id as int].len(), |i: int| id),
            ) =~= ids@.map_values(
                |id: u32| Seq::new(self.id_to_bytes@[id as int]@.len(), |i: int| id),
            )) by {
                let of_table = ids@.map_values(
                    |id: u32| Seq::new(self.table()[id as int].len(), |i: int| id),
                );
                let of_strings = ids@.map_values(
                    |id: u32| Seq::new(self.id_to_bytes@[id as int]@.len(), |i: int| id),
                );
                assert forall|j: int| 0 <= j < ids@.len() implies of_table[j] == of_strings[j] by {
                    assert(ids@[j] < self.id_to_bytes@.len());
                    assert(self.table()[ids@[j] as int] == self.id_to_bytes@[ids@[j] as int]@);
                }
            }
        }
        if aligned.len() != text.len() {
            return to_byte_ids(text);
        }
        aligned
    }

    /// Decode a sequence of token ids back to bytes. An id past the end of the
    /// table decodes as the last one of the table.
    pub fn decode(&self, ids: &[u32]) -> (out: Vec<u8>)
        requires
            ids@.len() > 0 ==> self.id_to_bytes@.len() > 0,
        ensures
            out@ == decoded(self.table(), ids@),
            out@ == ids@.map_values(
                |id: u32|
                    if id < self.id_to_bytes@.len() {
                        self.id_to_bytes@[id as int]@
                    } else {
                        self.id_to_bytes@.last()@
                    },
            ).flatten(),
    {
        let mut out: Vec<u8> = Vec::new();
        let mut k: usize = 0;
        while k < ids.len()
            invariant
                k <= ids.len(),
                ids@.len() > 0 ==> self.id_to_bytes@.len() > 0,
                out@ == decoded(self.table(), ids@.take(k as int)),
            decreases ids.len() - k,
        {
            let last: usize = self.id_to_bytes.len() - 1;
            let idx: usize = if (ids[k] as usize) < last {
                ids[k] as usize
            } else {
                last
            };
            let ghost before = out@;
            out.extend_from_slice(&self.id_to_bytes[idx]);
            proof {
                let longer = ids@.take(k + 1);
                assert(longer.drop_last() =~= ids@.take(k as int));
                assert(out@ =~= before + entry_or_last(self.table(), longer.last()));
            }
            k += 1;
        }
        assert(ids@.take(k as int) =~= ids@);
        proof {
            decoded_is_of_each(self.table(), ids@);
            if ids@.len() > 0 {
                assert(self.table().last() == self.id_to_bytes@.last()@);
            }
            assert(ids@.map_values(|id: u32| entry_or_last(self.table(), id)) =~= ids@.map_values(
                |id: u32|
                    if id < self.id_to_bytes@.len() {
                        self.id_to_bytes@[id as int]@
                    } else {
                        self.id_to_bytes@.last()@
                    },
            ));
        }
        out
    }

    /// The number of tokens.
    pub fn vocab_size(&self) -> (n: usize)
        ensures
            n == self.table().len(),
            n == self.id_to_bytes@.len(),
    {
        self.id_to_bytes.len()
    }
}

/// The contents of a list are those of its strings.
pub proof fn contents_of_each(strings: Seq<Vec<u8>>)
    ensures
        contents(strings).len() == strings.len(),
        forall|i: int| 0 <= i < strings.len() ==> #[trigger] contents(strings)[i] == strings[i]@,
{
}

/// Ids decode to the bytes of each, one after the other; an id past the end of
/// the table stands for the last one.
pub proof fn decoded_is_of_each(table: Seq<Seq<u8>>, ids: Seq<u32>)
    ensures
        decoded(table, ids) == ids.map_values(
            |id: u32|
                if id < table.len() {
                    table[id as int]
                } else {
                    table.last()
                },
        ).flatten(),
        decoded(table, ids) == ids.map_values(|id: u32| entry_or_last(table, id)).flatten(),
    decreases ids.len(),
{
    let parts = ids.map_values(|id: u32| entry_or_last(table, id));
    if ids.len() > 0 {
        decoded_is_of_each(table, ids.drop_last());
        let init = ids.drop_last().map_values(|id: u32| entry_or_last(table, id));
        assert(parts =~= init.push(entry_or_last(table, ids.last())));
        init.lemma_flatten_push(entry_or_last(table, ids.last()));
    }
    assert(parts =~= ids.map_values(
        |id: u32|
            if id < table.len() {
                table[id as int]
            } else {
                table.last()
            },
    ));
}

/// Ids cover as many positions as their tokens have bytes, one token after the
/// other.
pub proof fn coverage_is_of_each(table: Seq<Seq<u8>>, ids: Seq<u32>)
    ensures
        coverage(table, ids) == ids.map_values(
            |id: u32| Seq::new(table[id as int].len(), |i: int| id),
        ).flatten(),
    decreases ids.len(),
{
    let part = |id: u32| Seq::new(table[id as int].len(), |i: int| id);
    let parts = ids.map_values(part);
    if ids.len() > 0 {
        coverage_is_of_each(table, ids.drop_last());
        let init = ids.drop_last().map_values(part);
        assert(parts =~= init.push(part(ids.last())));
        init.lemma_flatten_push(part(ids.last()));
        assert(part(ids.last()) =~= Seq::new(table[ids.last() as int].len(), |i: int| ids.last()));
    }
}

/// Decoding in parts is decoding the whole.
pub proof fn decoding_joins(table: Seq<Seq<u8>>, first: Seq<u32>, second: Seq<u32>)
    ensures
        decoded(table, first + second) == decoded(table, first) + decoded(table, second),
{
    let part = |id: u32| entry_or_last(table, id);
    decoded_is_of_each(table, first);
    decoded_is_of_each(table, second);
    decoded_is_of_each(table, first + second);
    assert((first + second).map_values(part) =~= first.map_values(part) + second.map_values(part));
    vstd::seq_lib::lemma_flatten_concat(first.map_values(part), second.map_values(part));
}

/// The first 256 tokens are the single bytes, and the token of each rule is
/// made of the bytes of its two halves.
pub proof fn entries_in_full(tok: BpeTokenizer)
    requires
        tok.well_formed(),
    ensures
        tok.id_to_bytes@.len() == 256 + tok.merges@.len(),
        forall|b: int| 0 <= b < 256 ==> (#[trigger] tok.id_to_bytes@[b])@ == seq![b as u8],
        forall|k: int|
            0 <= k < tok.merges@.len() ==> {
                let rule = #[trigger] tok.merges@[k];
                &&& rule.left < 256 + k
                &&& rule.right < 256 + k
                &&& rule.result == 256 + k
                &&& tok.id_to_bytes@[256 + k]@ == tok.id_to_bytes@[rule.left as int]@
                    + tok.id_to_bytes@[rule.right as int]@
            },
{
    let table = tok.table();
    table_length(tok.merges@);
    table_entries(tok.merges@);
    assert forall|b: int| 0 <= b < 256 implies (#[trigger] tok.id_to_bytes@[b])@ == seq![b as u8] by {
        assert(table[b] == tok.id_to_bytes@[b]@);
    }
    assert forall|k: int| 0 <= k < tok.merges@.len() implies {
        let rule = #[trigger] tok.merges@[k];
        &&& rule.left < 256 + k
        &&& rule.right < 256 + k
        &&& rule.result == 256 + k
        &&& tok.id_to_bytes@[256 + k]@ == tok.id_to_bytes@[rule.left as int]@
            + tok.id_to_bytes@[rule.right as int]@
    } by {
        let rule = tok.merges@[k];
        assert(table[256 + k] == tok.id_to_bytes@[256 + k]@);
        assert(table[rule.left as int] == tok.id_to_bytes@[rule.left as int]@);
        assert(table[rule.right as int] == tok.id_to_bytes@[rule.right as int]@);
    }
}

/// The vocabulary has the bytes of every token and no others, and gives for
/// them the highest id that stands for them.
pub proof fn vocab_in_full(tok: BpeTokenizer)
    requires
        tok.well_formed(),
    ensures
        forall|key: Seq<u8>| #[trigger]
            tok.vocab@.contains_key(key) <==> exists|id: int|
                0 <= id < tok.id_to_bytes@.len() && (#[trigger] tok.id_to_bytes@[id])@ == key,
        forall|id: int|
            0 <= id < tok.id_to_bytes@.len() ==> {
                let bytes = (#[trigger] tok.id_to_bytes@[id])@;
                let found = tok.vocab@[bytes] as int;
                id <= found < tok.id_to_bytes@.len() && tok.id_to_bytes@[found]@ == bytes
            },
{
    let table = tok.table();
    let listing = indexed(table);
    table_length(tok.merges@);
    if tok.merges@.len() > 0 {
        assert(tok.merges@[tok.merges@.len() - 1].result == 255 + tok.merges@.len());
    }
    crate::vocab::map_of_entries(listing);
    assert forall|key: Seq<u8>| #[trigger] tok.vocab@.contains_key(key) <==> exists|id: int|
        0 <= id < tok.id_to_bytes@.len() && (#[trigger] tok.id_to_bytes@[id])@ == key by {
        if tok.vocab@.contains_key(key) {
            let i = choose|i: int| 0 <= i < listing.len() && (#[trigger] listing[i]).0 == key;
            assert(tok.id_to_bytes@[i]@ == key);
        }
        if exists|id: int| 0 <= id < tok.id_to_bytes@.len() && (#[trigger] tok.id_to_bytes@[id])@
            == key {
            let i = choose|id: int|
                0 <= id < tok.id_to_bytes@.len() && (#[trigger] tok.id_to_bytes@[id])@ == key;
            assert(listing[i].0 == key);
        }
    }
    assert forall|id: int| 0 <= id < tok.id_to_bytes@.len() implies {
        let bytes = (#[trigger] tok.id_to_bytes@[id])@;
        let found = tok.vocab@[bytes] as int;
        id <= found < tok.id_to_bytes@.len() && tok.id_to_bytes@[found]@ == bytes
    } by {
        last_id_of(table, id);
        assert(table[id] == tok.id_to_bytes@[id]@);
        let found = tok.vocab@[table[id]] as int;
        assert(table[found] == tok.id_to_bytes@[found]@);
    }
}

/// The map of a table gives the highest id with the same bytes.
proof fn last_id_of(table: Seq<Seq<u8>>, id: int)
    requires
        0 <= id < table.len() <= 0x1_0000_0000,
    ensures
        map_of(indexed(table)).contains_key(table[id]),
        id <= map_of(indexed(table))[table[id]] < table.len(),
        table[map_of(indexed(table))[table[id]] as int] == table[id],
    decreases table.len() - id,
{
    let listing = indexed(table);
    if exists|j: int| id < j < listing.len() && (#[trigger] listing[j]).0 == listing[id].0 {
        let j = choose|j: int| id < j < listing.len() && (#[trigger] listing[j]).0 == listing[id].0;
        assert(table[j] == table[id]);
        last_id_of(table, j);
    } else {
        crate::vocab::last_entry_counts(listing, id);
        assert(listing[id] == (table[id], id as u32));
    }
}

/// Training goes on while it may: it learns `num_merges` rules, or as many as
/// fit beside the single bytes into `max_vocab_size`, unless the corpus becomes
/// a single token before.
pub proof fn training_goes_on_while_it_may(
    tok: BpeTokenizer,
    corpus: Seq<u8>,
    num_merges: nat,
    max_vocab_size: nat,
)
    requires
        trained_on(tok, corpus, num_merges as int, max_vocab_size as int),
    ensures
        tok.merges@.len() <= num_merges,
        tok.merges@.len() > 0 ==> 256 + tok.merges@.len() <= max_vocab_size,
        merged_by(tok.merges@, byte_ids(corpus)).len() >= 2 ==> tok.merges@.len() == num_merges
            || 256 + tok.merges@.len() >= max_vocab_size,
        forall|k: int|
            0 <= k < tok.merges@.len() ==> {
                let rule = #[trigger] tok.merges@[k];
                let before = merged_by(tok.merges@.take(k), byte_ids(corpus));
                rule.result == 256 + k && is_best_pair(before, rule.left, rule.right)
            },
{
}

/// A table holds the 256 single bytes and one token for each merge.
pub proof fn table_length(merges: Seq<MergeRule>)
    ensures
        table_of(merges).len() == 256 + merges.len(),
    decreases merges.len(),
{
    if merges.len() > 0 {
        table_length(merges.drop_last());
    }
}

/// The first entries of a table are the single bytes, and each merge stands for
/// what its two halves stand for.
pub proof fn table_entries(merges: Seq<MergeRule>)
    requires
        rules_in_order(merges),
    ensures
        forall|b: int| 0 <= b < 256 ==> #[trigger] table_of(merges)[b] == seq![b as u8],
        forall|k: int|
            #![trigger merges[k]]
            0 <= k < merges.len() ==> table_of(merges)[merges[k].result as int] == table_of(
                merges,
            )[merges[k].left as int] + table_of(merges)[merges[k].right as int],
    decreases merges.len(),
{
    if merges.len() > 0 {
        let init = merges.drop_last();
        rules_before_are_in_order(merges);
        table_entries(init);
        table_length(init);
        assert forall|b: int| 0 <= b < 256 implies #[trigger] table_of(merges)[b]
            == seq![b as u8] by {
            assert(table_of(init)[b] == seq![b as u8]);
        }
        assert forall|k: int|
            #![trigger merges[k]]
            0 <= k < merges.len() implies table_of(merges)[merges[k].result as int] == table_of(
            merges,
        )[merges[k].left as int] + table_of(merges)[merges[k].right as int] by {
            if k < init.len() {
                assert(init[k] == merges[k]);
            }
        }
    }
}

/// Rules in order keep the ids of bytes within the table, and keep what the
/// sequence stands for.
proof fn rules_keep_text(merges: Seq<MergeRule>, table: Seq<Seq<u8>>, text: Seq<u8>)
    requires
        rules_in_order(merges),
        table.len() >= 256 + merges.len(),
        forall|b: int| 0 <= b < 256 ==> #[trigger] table[b] == seq![b as u8],
        forall|k: int|
            #![trigger merges[k]]
            0 <= k < merges.len() ==> table[merges[k].result as int] == table[merges[k].left as int]
                + table[merges[k].right as int],
    ensures
        ids_below(merged_by(merges, byte_ids(text)), table.len() as int),
        expansion(table, merged_by(merges, byte_ids(text))) == text,
    decreases merges.len(),
{
    if merges.len() == 0 {
        crate::merge::byte_ids_expand(table, text);
    } else {
        let init = merges.drop_last();
        let rule = merges.last();
        assert(merges[merges.len() - 1] == rule);
        assert(forall|k: int| 0 <= k < init.len() ==> init[k] == merges[k]);
        rules_keep_text(init, table, text);
        let ids = merged_by(init, byte_ids(text));
        crate::merge::merge_keeps_ids_below(
            ids,
            rule.left,
            rule.right,
            rule.result,
            table.len() as int,
        );
        crate::merge::merge_keeps_expansion(table, ids, rule.left, rule.right, rule.result);
    }
}

proof fn expansion_from_the_back(table: Seq<Seq<u8>>, ids: Seq<u32>)
    requires
        ids.len() > 0,
    ensures
        expansion(table, ids) == expansion(table, ids.drop_last()) + table[ids.last() as int],
    decreases ids.len(),
{
    if ids.len() == 1 {
        assert(ids.skip(1) =~= Seq::<u32>::empty());
        assert(ids.drop_last() =~= Seq::<u32>::empty());
        reveal_with_fuel(expansion, 2);
        assert(expansion(table, ids) =~= table[ids.last() as int]);
        assert(expansion(table, ids.drop_last()) + table[ids.last() as int]
            =~= table[ids.last() as int]);
    } else {
        expansion_from_the_back(table, ids.skip(1));
        assert(ids.skip(1).drop_last() =~= ids.drop_last().skip(1));
        assert(expansion(table, ids) =~= expansion(table, ids.drop_last())
            + table[ids.last() as int]);
    }
}

/// Ids within the table decode to what they stand for, and cover as many byte
/// positions.
pub proof fn decoded_is_expansion(table: Seq<Seq<u8>>, ids: Seq<u32>)
    requires
        ids_below(ids, table.len() as int),
    ensures
        decoded(table, ids) == expansion(table, ids),
        coverage(table, ids).len() == expansion(table, ids).len(),
    decreases ids.len(),
{
    if ids.len() > 0 {
        assert(ids_below(ids.drop_last(), table.len() as int)) by {
            assert(forall|i: int| 0 <= i < ids.len() - 1 ==> ids.drop_last()[i] == ids[i]);
        }
        decoded_is_expansion(table, ids.drop_last());
        expansion_from_the_back(table, ids);
        assert(ids[ids.len() - 1] == ids.last());
    }
}

/// Every text can be encoded with a well-formed tokenizer, and decoding gives
/// the text back.
pub proof fn decode_undoes_encode(tok: BpeTokenizer, text: Seq<u8>)
    requires
        tok.well_formed(),
    ensures
        ids_below(merged_by(tok.merges@, byte_ids(text)), tok.id_to_bytes@.len() as int),
        decoded(tok.table(), merged_by(tok.merges@, byte_ids(text))) == text,
{
    table_length(tok.merges@);
    table_entries(tok.merges@);
    rules_keep_text(tok.merges@, tok.table(), text);
    decoded_is_expansion(tok.table(), merged_by(tok.merges@, byte_ids(text)));
}

/// Encoding never makes a text longer.
pub proof fn encode_never_lengthens(tok: BpeTokenizer, text: Seq<u8>)
    ensures
        merged_by(tok.merges@, byte_ids(text)).len() <= text.len(),
{
    crate::merge::merged_by_shortens(tok.merges@, byte_ids(text));
}

/// A well-formed tokenizer has the 256 single bytes and one token for each
/// merge.
pub proof fn vocab_is_bytes_and_merges(tok: BpeTokenizer)
    requires
        tok.well_formed(),
    ensures
        tok.table().len() == 256 + tok.merges@.len(),
{
    table_length(tok.merges@);
}

/// The vocabulary is the inverse of the table: the bytes of every token are in
/// it, and the id that it gives for them stands for the same bytes.
pub proof fn vocab_inverts_table(tok: BpeTokenizer, id: int)
    requires
        tok.well_formed(),
        0 <= id < tok.table().len(),
    ensures
        tok.vocab@.contains_key(tok.table()[id]),
        tok.vocab@[tok.table()[id]] < tok.table().len(),
        tok.table()[tok.vocab@[tok.table()[id]] as int] == tok.table()[id],
{
    table_length(tok.merges@);
    if tok.merges@.len() > 0 {
        assert(tok.merges@[tok.merges@.len() - 1].result == 255 + tok.merges@.len());
    }
    let listing = indexed(tok.table());
    crate::vocab::map_of_entries(listing);
    assert(listing[id].0 == tok.table()[id]);
    let i = crate::vocab::mapped_id_is_listed(listing, tok.table()[id]);
    assert(listing[i] == (tok.table()[i], i as u32));
}

/// The token at position `k` of a sequence covers the byte positions from
/// where the tokens before it end up to its own end.
pub proof fn token_covers(table: Seq<Seq<u8>>, ids: Seq<u32>, k: int, position: int)
    requires
        ids_below(ids, table.len() as int),
        0 <= k < ids.len(),
        expansion(table, ids.take(k)).len() <= position < expansion(table, ids.take(k + 1)).len(),
    ensures
        position < coverage(table, ids).len(),
        coverage(table, ids)[position] == ids[k],
    decreases ids.len(),
{
    let init = ids.drop_last();
    assert(ids_below(init, table.len() as int)) by {
        assert(forall|i: int| 0 <= i < ids.len() - 1 ==> init[i] == ids[i]);
    }
    decoded_is_expansion(table, init);
    decoded_is_expansion(table, ids);
    if k < ids.len() - 1 {
        assert(init.take(k) =~= ids.take(k));
        assert(init.take(k + 1) =~= ids.take(k + 1));
        token_covers(table, init, k, position);
    } else {
        assert(ids.take(k) =~= init);
        assert(ids.take(k + 1) =~= ids);
    }
}

/// The tokens that a well-formed tokenizer makes of a text cover exactly its
/// bytes, so that the aligned encoding never falls back to single bytes.
pub proof fn aligned_covers_text(tok: BpeTokenizer, text: Seq<u8>)
    requires
        tok.well_formed(),
    ensures
        coverage(tok.table(), merged_by(tok.merges@, byte_ids(text))).len() == text.len(),
{
    table_length(tok.merges@);
    table_entries(tok.merges@);
    rules_keep_text(tok.merges@, tok.table(), text);
    decoded_is_expansion(tok.table(), merged_by(tok.merges@, byte_ids(text)));
}

/// Each learned merge shortens the corpus by at least one token.
pub proof fn training_compresses(corpus: Seq<u8>, merges: Seq<MergeRule>)
    requires
        learned_from(corpus, merges),
    ensures
        merged_by(merges, byte_ids(corpus)).len() + merges.len() <= corpus.len(),
    decreases merges.len(),
{
    if merges.len() > 0 {
        let init = merges.drop_last();
        let rule = merges.last();
        assert(merges[merges.len() - 1] == rule);
        assert(merges.take(merges.len() - 1) =~= init);
        assert forall|k: int| 0 <= k < init.len() implies {
            let r = #[trigger] init[k];
            &&& is_best_pair(merged_by(init.take(k), byte_ids(corpus)), r.left, r.right)
            &&& r.result == 256 + k
        } by {
            assert(init[k] == merges[k]);
            assert(init.take(k) =~= merges.take(k));
        }
        training_compresses(corpus, init);
        let ids = merged_by(init, byte_ids(corpus));
        let at = crate::pairs::counted_pair_occurs(ids, rule.left, rule.right);
        crate::merge::merge_shortens(ids, rule.left, rule.right, rule.result, at);
    }
}

/// A trained vocabulary stays within `max_vocab_size`, or is the base
/// vocabulary.
pub proof fn training_respects_limit(
    tok: BpeTokenizer,
    corpus: Seq<u8>,
    num_merges: nat,
    max_vocab_size: nat,
)
    requires
        trained_on(tok, corpus, num_merges as int, max_vocab_size as int),
    ensures
        tok.table().len() <= max_vocab_size || tok.table().len() == 256,
        tok.merges@.len() <= num_merges,
{
    table_length(tok.merges@);
}

/// Of two lists of rules learned from one corpus, the shorter one is how the
/// longer one begins.
proof fn learned_rules_agree(corpus: Seq<u8>, a: Seq<MergeRule>, b: Seq<MergeRule>, n: nat)
    requires
        learned_from(corpus, a),
        learned_from(corpus, b),
        n <= a.len(),
        n <= b.len(),
    ensures
        a.take(n as int) == b.take(n as int),
    decreases n,
{
    if n > 0 {
        let k = n - 1;
        learned_rules_agree(corpus, a, b, k as nat);
        let ids = merged_by(a.take(k), byte_ids(corpus));
        crate::pairs::best_pair_is_unique(ids, a[k].left, a[k].right, b[k].left, b[k].right);
        assert(a[k] == b[k]);
        assert(a.take(n as int) =~= a.take(k).push(a[k]));
        assert(b.take(n as int) =~= b.take(k).push(b[k]));
    } else {
        assert(a.take(0) =~= b.take(0));
    }
}

/// Two lists of as many rules learned from one corpus are equal.
pub proof fn learned_rules_are_unique(corpus: Seq<u8>, a: Seq<MergeRule>, b: Seq<MergeRule>)
    requires
        learned_from(corpus, a),
        learned_from(corpus, b),
        a.len() == b.len(),
    ensures
        a == b,
{
    learned_rules_agree(corpus, a, b, a.len());
    assert(a.take(a.len() as int) =~= a);
    assert(b.take(b.len() as int) =~= b);
}

/// Training ended early has learned as many rules as any other training.
proof fn no_rule_behind_the_end(corpus: Seq<u8>, a: Seq<MergeRule>, b: Seq<MergeRule>)
    requires
        learned_from(corpus, a),
        learned_from(corpus, b),
        merged_by(a, byte_ids(corpus)).len() < 2,
    ensures
        b.len() <= a.len(),
{
    if a.len() < b.len() {
        learned_rules_agree(corpus, a, b, a.len());
        assert(a.take(a.len() as int) =~= a);
        let rule = b[a.len() as int];
        let ids = merged_by(b.take(a.len() as int), byte_ids(corpus));
        assert(is_best_pair(ids, rule.left, rule.right));
        let at = crate::pairs::counted_pair_occurs(ids, rule.left, rule.right);
    }
}

/// Training is deterministic: on one corpus and with the same limits it always
/// gives the same rules, the same table and the same vocabulary.
pub proof fn training_is_deterministic(
    a: BpeTokenizer,
    b: BpeTokenizer,
    corpus: Seq<u8>,
    num_merges: int,
    max_vocab_size: int,
)
    requires
        trained_on(a, corpus, num_merges, max_vocab_size),
        trained_on(b, corpus, num_merges, max_vocab_size),
    ensures
        a.merges@ == b.merges@,
        a.table() == b.table(),
        a.vocab@ == b.vocab@,
{
    if a.merges@.len() < b.merges@.len() {
        no_rule_behind_the_end(corpus, a.merges@, b.merges@);
    } else if b.merges@.len() < a.merges@.len() {
        no_rule_behind_the_end(corpus, b.merges@, a.merges@);
    }
    learned_rules_are_unique(corpus, a.merges@, b.merges@);
}

/// The first rules of rules in order are in order.
proof fn rules_before_are_in_order(merges: Seq<MergeRule>)
    requires
        rules_in_order(merges),
        merges.len() > 0,
    ensures
        rules_in_order(merges.drop_last()),
{
    let init = merges.drop_last();
    assert forall|k: int| 0 <= k < init.len() implies {
        let rule = #[trigger] init[k];
        &&& rule.left < 256 + k
        &&& rule.right < 256 + k
        &&& rule.result == 256 + k
    } by {
        assert(init[k] == merges[k]);
    }
}

proof fn rules_leave_no_pair(merges: Seq<MergeRule>, ids: Seq<u32>, k: int)
    requires
        rules_in_order(merges),
        0 <= k < merges.len(),
    ensures
        lacks_pair(merged_by(merges, ids), merges[k].left, merges[k].right),
    decreases merges.len(),
{
    let init = merges.drop_last();
    let last = merges.last();
    let before = merged_by(init, ids);
    assert(merges[merges.len() - 1] == last);
    let rule = merges[k];
    if k == merges.len() - 1 {
        crate::merge::merge_removes_pair(before, last.left, last.right, last.result);
    } else {
        rules_before_are_in_order(merges);
        rules_leave_no_pair(init, ids, k);
        assert(init[k] == rule);
        crate::merge::merge_makes_no_other_pair(
            before,
            last.left,
            last.right,
            last.result,
            rule.left,
            rule.right,
        );
    }
}

/// Encoding exhausts all merges: no two neighbours of an encoded text are the
/// pair of a rule.
pub proof fn encoding_exhausts_merges(tok: BpeTokenizer, text: Seq<u8>, k: int)
    requires
        tok.well_formed(),
        0 <= k < tok.merges@.len(),
    ensures
        lacks_pair(
            merged_by(tok.merges@, byte_ids(text)),
            tok.merges@[k].left,
            tok.merges@[k].right,
        ),
{
    rules_leave_no_pair(tok.merges@, byte_ids(text), k);
}

/// Training with higher limits goes on where training with lower limits ended:
/// the rules of the one begin with those of the other.
pub proof fn training_extends(
    a: BpeTokenizer,
    b: BpeTokenizer,
    corpus: Seq<u8>,
    num_merges: int,
    more_merges: int,
    max_vocab_size: int,
    larger_vocab_size: int,
)
    requires
        trained_on(a, corpus, num_merges, max_vocab_size),
        trained_on(b, corpus, more_merges, larger_vocab_size),
        num_merges <= more_merges,
        max_vocab_size <= larger_vocab_size,
    ensures
        a.merges@.len() <= b.merges@.len(),
        b.merges@.take(a.merges@.len() as int) == a.merges@,
{
    if b.merges@.len() < a.merges@.len() {
        no_rule_behind_the_end(corpus, b.merges@, a.merges@);
    }
    learned_rules_agree(corpus, a.merges@, b.merges@, a.merges@.len());
    assert(a.merges@.take(a.merges@.len() as int) =~= a.merges@);
}

} // verus!
