//! Words as they lie in the memory of the machine, in its byte order.

use vstd::bytes::u32_from_le_bytes;
use vstd::prelude::*;
use vstd::slice::slice_subrange;

verus! {

use vstd::bytes::{spec_u32_from_le_bytes, spec_u32_to_le_bytes};
use vstd::endian::{endianness, Endian};

/// The four bytes of a word in memory: the lowest first, or the highest first.
pub open spec fn memory_word(word: u32) -> Seq<u8> {
    match endianness() {
        Endian::Little => spec_u32_to_le_bytes(word),
        Endian::Big => spec_u32_to_le_bytes(word).reverse(),
    }
}

/// The bytes of words in memory, one word after the other.
pub open spec fn memory_image(words: Seq<u32>) -> Seq<u8> {
    Seq::new(4 * words.len(), |i: int| memory_word(words[i / 4])[i % 4])
}

/// The word that lies in memory as four bytes.
pub open spec fn word_of(bytes: Seq<u8>) -> u32 {
    match endianness() {
        Endian::Little => spec_u32_from_le_bytes(bytes),
        Endian::Big => spec_u32_from_le_bytes(bytes.reverse()),
    }
}

/// The words that lie in `bytes` from `at` on.
pub open spec fn memory_words_at(bytes: Seq<u8>, at: int, n: int) -> Seq<u32> {
    Seq::new(n as nat, |i: int| word_of(bytes.subrange(at + 4 * i, at + 4 * i + 4)))
}

/// `bytemuck::cast_slice` from words to bytes: the same memory seen as bytes,
/// four for each word, in the byte order of the machine, for which
/// `vstd::endian::endianness` stands. Which of the two orders that is depends
/// on the machine and is not stated. The cast cannot fail: bytes need no
/// alignment, and four of them make up a word exactly.
#[verifier::external_body]
pub(crate) fn memory_bytes(words: &[u32]) -> (bytes: &[u8])
    ensures
        bytes@ == memory_image(words@),
{
    bytemuck::cast_slice(words)
}

/// Whether the first byte of a word in memory is the lowest one.
pub fn is_little_endian() -> (little: bool)
    ensures
        little <==> endianness() is Little,
{
    let low_first: [u8; 4] = [1, 0, 0, 0];
    let probe: u32 = u32_from_le_bytes(&low_first);
    let words: [u32; 1] = [probe];
    let bytes = memory_bytes(&words);
    proof {
        vstd::bytes::lemma_auto_spec_u32_to_from_le_bytes();
        assert(spec_u32_to_le_bytes(probe) == low_first@);
        assert(bytes@[0] == memory_word(probe)[0]);
    }
    bytes[0] == 1
}

/// The words that lie in `bytes` from `at` on.
pub fn read_memory_words(bytes: &[u8], at: usize, n: usize) -> (words: Vec<u32>)
    requires
        at + 4 * n <= bytes@.len(),
    ensures
        words@ == memory_words_at(bytes@, at as int, n as int),
{
    let little = is_little_endian();
    let mut words: Vec<u32> = Vec::with_capacity(n);
    let mut i: usize = 0;
    while i < n
        invariant
            i <= n,
            at + 4 * n <= bytes@.len(),
            little <==> endianness() is Little,
            words@ == memory_words_at(bytes@, at as int, i as int),
        decreases n - i,
    {
        assert(bytes.len() == bytes@.len());
        let from: usize = at + 4 * i;
        let piece = slice_subrange(bytes, from, from + 4);
        let word: u32 = if little {
            u32_from_le_bytes(piece)
        } else {
            let low_first: [u8; 4] = [piece[3], piece[2], piece[1], piece[0]];
            assert(low_first@ =~= piece@.reverse());
            u32_from_le_bytes(&low_first)
        };
        words.push(word);
        assert(words@ =~= memory_words_at(bytes@, at as int, i + 1));
        i += 1;
    }
    words
}

/// A word and its bytes in memory determine each other.
pub proof fn word_and_bytes()
    ensures
        forall|word: u32|
            {
                &&& #[trigger] memory_word(word).len() == 4
                &&& word_of(memory_word(word)) == word
            },
        forall|bytes: Seq<u8>| bytes.len() == 4 ==> #[trigger] memory_word(word_of(bytes)) == bytes,
{
    vstd::bytes::lemma_auto_spec_u32_to_from_le_bytes();
    assert forall|word: u32|
        {
            &&& #[trigger] memory_word(word).len() == 4
            &&& word_of(memory_word(word)) == word
        } by {
        let low_first = spec_u32_to_le_bytes(word);
        assert(low_first.reverse().reverse() =~= low_first);
    }
    assert forall|bytes: Seq<u8>| bytes.len() == 4 implies #[trigger] memory_word(word_of(bytes))
        == bytes by {
        assert(bytes.reverse().reverse() =~= bytes);
    }
}

/// Words are read from memory as they lie there.
pub proof fn image_read_back(bytes: Seq<u8>, at: int, words: Seq<u32>)
    requires
        0 <= at,
        at + 4 * words.len() <= bytes.len(),
        bytes.subrange(at, at + 4 * words.len()) == memory_image(words),
    ensures
        memory_words_at(bytes, at, words.len() as int) == words,
{
    word_and_bytes();
    let written = bytes.subrange(at, at + 4 * words.len());
    let read = memory_words_at(bytes, at, words.len() as int);
    assert forall|i: int| 0 <= i < words.len() implies read[i] == words[i] by {
        let piece = bytes.subrange(at + 4 * i, at + 4 * i + 4);
        assert forall|j: int| 0 <= j < 4 implies piece[j] == memory_word(words[i])[j] by {
            assert(piece[j] == written[4 * i + j]);
            assert((4 * i + j) / 4 == i);
            assert((4 * i + j) % 4 == j);
        }
        assert(piece =~= memory_word(words[i]));
    }
    assert(read =~= words);
}

/// The bytes of words are those of each word, four at a time: the lowest first
/// on a little-endian machine, the highest first on a big-endian one.
pub proof fn image_is_of_each(words: Seq<u32>, i: int, j: int)
    requires
        0 <= i < words.len(),
        0 <= j < 4,
    ensures
        memory_image(words).len() == 4 * words.len(),
        memory_image(words)[4 * i + j] == spec_u32_to_le_bytes(
            words[i],
        )[if endianness() is Little {
            j
        } else {
            3 - j
        }],
{
    vstd::bytes::lemma_auto_spec_u32_to_from_le_bytes();
    assert((4 * i + j) / 4 == i);
    assert((4 * i + j) % 4 == j);
}

} // verus!
