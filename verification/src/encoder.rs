//! The multi-scale encoder: which values of its tables a byte position draws
//! on.
//!
//! The input of the fusion matrix at position `t` is made of three parts: a
//! hashed histogram of the n-grams that end at `t`, the embedding of the token
//! at `t`, and a projection of the embeddings of the last few tokens. All three
//! look back only.
//!
//! Values are 32-bit floating-point values, each held as its bit pattern.

use crate::tensor::Matrix;
use vstd::prelude::*;

verus! {

/// The number of rows of the embedding table.
pub const BPE_VOCAB_SIZE: usize = 4096;

pub const D_BYTES: usize = 128;

pub const D_BPE: usize = 256;

pub const D_PHRASE: usize = 128;

pub const D_CONCAT: usize = 512;

pub const D_MODEL: usize = 512;

/// The fewest tokens that the phrase window may have.
pub const PHRASE_WIN_MIN: usize = 4;

/// The most tokens that the phrase window may have.
pub const PHRASE_WIN_MAX: usize = 8;

/// The number of buckets into which n-grams are hashed.
pub const NGRAM_BUCKETS: usize = 128;

/// Start value of the FNV-1a hash.
pub const FNV_BASIS: u64 = 14_695_981_039_346_656_037;

/// Multiplier of the FNV-1a hash.
pub const FNV_PRIME: u64 = 1_099_511_628_211;

/// The 64-bit FNV-1a hash.
pub open spec fn fnv(gram: Seq<u8>) -> u64
    decreases gram.len(),
{
    if gram.len() == 0 {
        FNV_BASIS
    } else {
        (((fnv(gram.drop_last()) ^ (gram.last() as u64)) * FNV_PRIME) % 0x1_0000_0000_0000_0000)
            as u64
    }
}

/// The buckets of the n-grams that end at `t`: of one byte, of two and of
/// three, as far as there are that many bytes.
pub open spec fn buckets_at(bytes: Seq<u8>, t: int) -> Seq<usize> {
    Seq::new(
        (if t < 2 {
            t + 1
        } else {
            3
        }) as nat,
        |i: int| (fnv(bytes.subrange(t - i, t + 1)) % 128) as usize,
    )
}

/// The row of the embedding table for a token.
pub open spec fn row_of(id: u32) -> int {
    id as int % 4096
}

/// The rows for the `win` tokens up to position `t`; none for a place before
/// the first token.
pub open spec fn window_rows(ids: Seq<u32>, t: int, win: int) -> Seq<Option<int>> {
    Seq::new(
        win as nat,
        |k: int|
            if t + k < win - 1 {
                None
            } else {
                Some(row_of(ids[t + k - (win - 1)]))
            },
    )
}

/// A row of a table of `width` columns; zeros where there is none.
pub open spec fn row_values(table: Seq<u32>, width: int, row: Option<int>) -> Seq<u32> {
    match row {
        Some(r) => table.subrange(r * width, r * width + width),
        None => Seq::new(width as nat, |i: int| 0u32),
    }
}

/// Rows of a table, one after the other.
pub open spec fn rows_values(table: Seq<u32>, width: int, rows: Seq<Option<int>>) -> Seq<u32>
    decreases rows.len(),
{
    if rows.len() == 0 {
        Seq::empty()
    } else {
        rows_values(table, width, rows.drop_last()) + row_values(table, width, rows.last())
    }
}

/// FNV-1a byte hash for n-gram bucketing.
pub fn ngram_hash(gram: &[u8]) -> (h: u64)
    ensures
        h == fnv(gram@),
        gram@.len() == 0 ==> h == 14_695_981_039_346_656_037,
        gram@.len() > 0 ==> h == (((fnv(gram@.drop_last()) ^ (gram@.last() as u64))
            * 1_099_511_628_211) % 0x1_0000_0000_0000_0000) as u64,
{
    let mut h: u64 = FNV_BASIS;
    let mut i: usize = 0;
    while i < gram.len()
        invariant
            i <= gram.len(),
            h == fnv(gram@.take(i as int)),
        decreases gram.len() - i,
    {
        assert(gram@.take(i + 1).drop_last() =~= gram@.take(i as int));
        h = h ^ (gram[i] as u64);
        h = h.wrapping_mul(FNV_PRIME);
        i += 1;
    }
    assert(gram@.take(i as int) =~= gram@);
    h
}

/// The encoder and its tables.
#[derive(Debug, Clone)]
pub struct MultiScaleEncoder {
    /// Embedding table, one row for each token.
    pub bpe_embeddings: Matrix,
    /// Fusion projection.
    pub w_fusion: Matrix,
    /// Phrase projection: its columns are the embeddings of a window of tokens.
    pub w_phrase: Matrix,
    /// The number of tokens in the window.
    pub phrase_window: usize,
}

impl MultiScaleEncoder {
    pub open spec fn well_formed(&self) -> bool {
        &&& self.bpe_embeddings.well_formed()
        &&& self.bpe_embeddings.has_shape(BPE_VOCAB_SIZE as int, D_BPE as int)
        &&& self.w_fusion.has_shape(D_MODEL as int, D_CONCAT as int)
        &&& self.phrase_window == self.w_phrase.cols / 256
        &&& PHRASE_WIN_MIN <= self.phrase_window <= PHRASE_WIN_MAX
    }

    pub fn new(bpe_embeddings: Matrix, w_fusion: Matrix, w_phrase: Matrix) -> (out: Self)
        requires
            bpe_embeddings.well_formed(),
            bpe_embeddings.has_shape(BPE_VOCAB_SIZE as int, D_BPE as int),
            w_fusion.has_shape(D_MODEL as int, D_CONCAT as int),
            PHRASE_WIN_MIN <= w_phrase.cols / 256 <= PHRASE_WIN_MAX,
        ensures
            out.well_formed(),
            out.bpe_embeddings == bpe_embeddings,
            out.w_fusion == w_fusion,
            out.w_phrase == w_phrase,
            out.phrase_window == w_phrase.cols as int / 256,
    {
        let phrase_window: usize = w_phrase.cols / D_BPE;
        MultiScaleEncoder { bpe_embeddings, w_fusion, w_phrase, phrase_window }
    }

    /// The buckets to which the n-grams that end at `t` belong, the one of a
    /// single byte first. An n-gram counts 1/n there.
    pub fn compute_byte_ngrams(&self, bytes: &[u8], t: usize) -> (buckets: Vec<usize>)
        requires
            t < bytes@.len(),
        ensures
            buckets@ == buckets_at(bytes@, t as int),
            buckets@.len() == (if t < 2 {
                t + 1
            } else {
                3
            }),
            forall|n: int|
                1 <= n <= buckets@.len() ==> #[trigger] buckets@[n - 1] == fnv(
                    bytes@.subrange(t + 1 - n, t + 1),
                ) % 128,
    {
        assert(bytes.len() == bytes@.len());
        let mut buckets: Vec<usize> = Vec::with_capacity(3);
        let mut n: usize = 1;
        while n <= 3 && n <= t + 1
            invariant
                t < bytes@.len() == bytes.len(),
                1 <= n <= 4,
                n <= t + 2,
                buckets@.len() == n - 1,
                forall|i: int|
                    0 <= i < n - 1 ==> #[trigger] buckets@[i] == fnv(
                        bytes@.subrange(t - i, t + 1),
                    ) % 128,
            decreases 4 - n,
        {
            let gram = vstd::slice::slice_subrange(bytes, t + 1 - n, t + 1);
            let bucket: usize = (ngram_hash(gram) % 128) as usize;
            buckets.push(bucket);
            n += 1;
        }
        assert(buckets@ =~= buckets_at(bytes@, t as int));
        buckets
    }

    /// The embedding of the token at `t`.
    pub fn lookup_bpe(&self, bpe_ids: &[u32], t: usize) -> (values: Vec<u32>)
        requires
            self.well_formed(),
            t < bpe_ids@.len(),
        ensures
            values@ == row_values(
                self.bpe_embeddings.data@,
                D_BPE as int,
                Some(row_of(bpe_ids@[t as int])),
            ),
            values@.len() == 256,
            forall|i: int|
                0 <= i < 256 ==> #[trigger] values@[i] == self.bpe_embeddings.data@[(
                bpe_ids@[t as int] as int % 4096) * 256 + i],
    {
        let id: usize = bpe_ids[t] as usize % BPE_VOCAB_SIZE;
        let mut values: Vec<u32> = Vec::with_capacity(D_BPE);
        self.put_row(&mut values, id);
        assert(Seq::<u32>::empty() + row_values(
            self.bpe_embeddings.data@,
            D_BPE as int,
            Some(id as int),
        ) =~= row_values(self.bpe_embeddings.data@, D_BPE as int, Some(id as int)));
        values
    }

    /// Append a row of the embedding table.
    fn put_row(&self, values: &mut Vec<u32>, row: usize)
        requires
            self.well_formed(),
            row < BPE_VOCAB_SIZE,
        ensures
            final(values)@ == old(values)@ + row_values(
                self.bpe_embeddings.data@,
                D_BPE as int,
                Some(row as int),
            ),
    {
        let base: usize = row * D_BPE;
        let mut i: usize = 0;
        while i < D_BPE
            invariant
                self.well_formed(),
                i <= D_BPE,
                base == row * D_BPE,
                row < BPE_VOCAB_SIZE,
                values@ == old(values)@ + self.bpe_embeddings.data@.subrange(
                    base as int,
                    base + i,
                ),
            decreases D_BPE - i,
        {
            values.push(self.bpe_embeddings.data[base + i]);
            assert(values@ =~= old(values)@ + self.bpe_embeddings.data@.subrange(
                base as int,
                base + i + 1,
            ));
            i += 1;
        }
    }

    /// The embeddings of the tokens of the window that ends at `t`, one after
    /// the other, with zeros for places before the first token.
    pub fn phrase_inputs(&self, bpe_ids: &[u32], t: usize) -> (values: Vec<u32>)
        requires
            self.well_formed(),
            t < bpe_ids@.len(),
        ensures
            values@ == rows_values(
                self.bpe_embeddings.data@,
                D_BPE as int,
                window_rows(bpe_ids@, t as int, self.phrase_window as int),
            ),
            values@.len() == self.phrase_window * 256,
            forall|k: int, i: int|
                #![trigger values@[k * 256 + i]]
                0 <= k < self.phrase_window && 0 <= i < 256 ==> values@[k * 256 + i] == (if t + 1
                    + k < self.phrase_window {
                    0
                } else {
                    self.bpe_embeddings.data@[(bpe_ids@[t + 1 + k - self.phrase_window] as int
                        % 4096) * 256 + i]
                }),
    {
        let win: usize = self.phrase_window;
        let ghost rows = window_rows(bpe_ids@, t as int, win as int);
        let ghost table = self.bpe_embeddings.data@;
        let mut values: Vec<u32> = Vec::with_capacity(win * D_BPE);
        let mut k: usize = 0;
        while k < win
            invariant
                self.well_formed(),
                win == self.phrase_window,
                t < bpe_ids@.len() == bpe_ids.len(),
                k <= win,
                rows == window_rows(bpe_ids@, t as int, win as int),
                table == self.bpe_embeddings.data@,
                values@ == rows_values(table, D_BPE as int, rows.take(k as int)),
            decreases win - k,
        {
            let ghost before = values@;
            if t < win - 1 - k {
                let mut i: usize = 0;
                while i < D_BPE
                    invariant
                        i <= D_BPE,
                        values@ == before + Seq::new(i as nat, |j: int| 0u32),
                    decreases D_BPE - i,
                {
                    values.push(0);
                    assert(values@ =~= before + Seq::new((i + 1) as nat, |j: int| 0u32));
                    i += 1;
                }
            } else {
                let pos: usize = t - (win - 1 - k);
                self.put_row(&mut values, bpe_ids[pos] as usize % BPE_VOCAB_SIZE);
            }
            proof {
                let longer = rows.take(k + 1);
                assert(longer.drop_last() =~= rows.take(k as int));
                assert(longer.last() == rows[k as int]);
                assert(values@ =~= before + row_values(table, D_BPE as int, rows[k as int]));
            }
            k += 1;
        }
        assert(rows.take(k as int) =~= rows);
        proof {
            rows_size(table, rows);
            assert forall|k: int, i: int|
                #![trigger values@[k * 256 + i]]
                0 <= k < win && 0 <= i < 256 implies values@[k * 256 + i] == (if t + 1 + k < win {
                0
            } else {
                table[(bpe_ids@[t + 1 + k - win] as int % 4096) * 256 + i]
            }) by {
                rows_places(table, rows, k, i);
            }
        }
        values
    }

    /// The input of the fusion matrix: the three parts one after the other.
    pub fn fusion_input(e_bytes: &[u32], e_bpe: &[u32], e_phrase: &[u32]) -> (concat: Vec<u32>)
        requires
            e_bytes@.len() == D_BYTES,
            e_bpe@.len() == D_BPE,
            e_phrase@.len() == D_PHRASE,
        ensures
            concat@ == e_bytes@ + e_bpe@ + e_phrase@,
            concat@.len() == D_CONCAT,
    {
        let mut concat: Vec<u32> = Vec::with_capacity(D_CONCAT);
        concat.extend_from_slice(e_bytes);
        concat.extend_from_slice(e_bpe);
        concat.extend_from_slice(e_phrase);
        assert(concat@ =~= e_bytes@ + e_bpe@ + e_phrase@);
        concat
    }
}

/// There are as many values as the window has embeddings.
pub proof fn window_size(table: Seq<u32>, ids: Seq<u32>, t: int, win: int)
    requires
        table.len() == 4096 * 256,
        0 <= t < ids.len(),
        0 <= win,
    ensures
        rows_values(table, 256, window_rows(ids, t, win)).len() == win * 256,
{
    rows_size(table, window_rows(ids, t, win));
}

proof fn rows_size(table: Seq<u32>, rows: Seq<Option<int>>)
    requires
        table.len() == 4096 * 256,
        forall|i: int|
            0 <= i < rows.len() ==> (#[trigger] rows[i] matches Some(r) ==> 0 <= r < 4096),
    ensures
        rows_values(table, 256, rows).len() == rows.len() * 256,
    decreases rows.len(),
{
    if rows.len() > 0 {
        let init = rows.drop_last();
        assert(forall|i: int| 0 <= i < init.len() ==> init[i] == rows[i]);
        rows_size(table, init);
        assert(rows[rows.len() - 1] == rows.last());
    }
}

/// Value `i` of the `k`-th of several rows.
proof fn rows_places(table: Seq<u32>, rows: Seq<Option<int>>, k: int, i: int)
    requires
        table.len() == 4096 * 256,
        forall|j: int|
            0 <= j < rows.len() ==> (#[trigger] rows[j] matches Some(r) ==> 0 <= r < 4096),
        0 <= k < rows.len(),
        0 <= i < 256,
    ensures
        rows_values(table, 256, rows)[k * 256 + i] == (match rows[k] {
            Some(r) => table[r * 256 + i],
            None => 0,
        }),
    decreases rows.len(),
{
    let init = rows.drop_last();
    assert(forall|j: int| 0 <= j < init.len() ==> init[j] == rows[j]);
    rows_size(table, init);
    assert(rows[rows.len() - 1] == rows.last());
    if k < init.len() {
        rows_places(table, init, k, i);
    }
}

/// The hash of a gram is that of all its bytes but the last, mixed with the
/// last one; that of nothing is the basis of FNV-1a.
pub proof fn hash_takes_byte_by_byte(gram: Seq<u8>, byte: u8)
    ensures
        fnv(Seq::empty()) == 14_695_981_039_346_656_037,
        fnv(gram.push(byte)) == (((fnv(gram) ^ (byte as u64)) * 1_099_511_628_211)
            % 0x1_0000_0000_0000_0000) as u64,
{
    assert(gram.push(byte).drop_last() =~= gram);
}

/// Value `i` of a token's embedding is the value in column `i` of its row, and
/// its row is its id modulo the size of the table.
pub proof fn embedding_is_row(table: Seq<u32>, id: u32, i: int)
    requires
        table.len() == 4096 * 256,
        0 <= i < 256,
    ensures
        row_values(table, 256, Some(row_of(id))).len() == 256,
        row_values(table, 256, Some(row_of(id)))[i] == table[(id as int % 4096) * 256 + i],
        row_values(table, 256, None)[i] == 0,
{
}

/// Place `k` of the window that ends at `t` holds the embedding of the token
/// `win - 1 - k` positions before `t`, and zeros where there is none.
pub proof fn window_is_embeddings(
    table: Seq<u32>,
    ids: Seq<u32>,
    t: int,
    win: int,
    k: int,
    i: int,
)
    requires
        table.len() == 4096 * 256,
        0 <= t < ids.len(),
        0 <= k < win,
        0 <= i < 256,
    ensures
        rows_values(table, 256, window_rows(ids, t, win))[k * 256 + i] == (if t + 1 + k < win {
            0
        } else {
            table[(ids[t + 1 + k - win] as int % 4096) * 256 + i]
        }),
{
    rows_places(table, window_rows(ids, t, win), k, i);
}

/// The buckets at a position are those of the grams of one, two and three bytes
/// that end there, as far as the stream goes back.
pub proof fn buckets_are_of_last_grams(bytes: Seq<u8>, t: int, n: int)
    requires
        0 <= t < bytes.len(),
    ensures
        buckets_at(bytes, t).len() == (if t < 2 {
            t + 1
        } else {
            3
        }),
        1 <= n <= 3 && n <= t + 1 ==> buckets_at(bytes, t)[n - 1] == fnv(
            bytes.subrange(t + 1 - n, t + 1),
        ) % 128,
{
}

/// The encoder looks back only, and not far: two streams that agree on the last
/// three bytes up to position `t`, and whose tokens in the window that ends
/// there have the same rows, give the same n-gram buckets, the same token row
/// and the same window there.
pub proof fn encoder_is_causal(
    bytes: Seq<u8>,
    other_bytes: Seq<u8>,
    ids: Seq<u32>,
    other_ids: Seq<u32>,
    t: int,
    win: int,
)
    requires
        0 <= t < bytes.len(),
        t < other_bytes.len(),
        t < ids.len(),
        t < other_ids.len(),
        1 <= win,
        forall|j: int| 0 <= j && t - 3 < j <= t ==> #[trigger] bytes[j] == other_bytes[j],
        forall|j: int|
            0 <= j && t - win < j <= t ==> row_of(#[trigger] ids[j]) == row_of(other_ids[j]),
    ensures
        buckets_at(bytes, t) == buckets_at(other_bytes, t),
        row_of(ids[t]) == row_of(other_ids[t]),
        window_rows(ids, t, win) == window_rows(other_ids, t, win),
{
    assert forall|i: int| 0 <= i < 3 && i <= t implies bytes.subrange(t - i, t + 1)
        == #[trigger] other_bytes.subrange(t - i, t + 1) by {
        assert(bytes.subrange(t - i, t + 1) =~= other_bytes.subrange(t - i, t + 1));
    }
    assert(buckets_at(bytes, t) =~= buckets_at(other_bytes, t));
    assert(window_rows(ids, t, win) =~= window_rows(other_ids, t, win));
}

/// The last place of the window is the token at `t` itself.
pub proof fn window_ends_at_position(ids: Seq<u32>, t: int, win: int)
    requires
        0 <= t < ids.len(),
        1 <= win,
    ensures
        window_rows(ids, t, win).last() == Some(row_of(ids[t])),
{
}

} // verus!
