//! Extending a prompt token by token.

use crate::tokenizer::BpeTokenizer;
use vstd::prelude::*;

verus! {

use crate::merge::{byte_ids, ids_below, merged_by};
use crate::tokenizer::{coverage, decoded, entry_or_last};

/// The text can be encoded position by position: every token has an entry in
/// the table.
pub open spec fn alignable(tok: BpeTokenizer, text: Seq<u8>) -> bool {
    ids_below(merged_by(tok.merges@, byte_ids(text)), tok.id_to_bytes@.len() as int)
}

/// The id for each byte position of a text.
pub open spec fn aligned_ids(tok: BpeTokenizer, text: Seq<u8>) -> Seq<u32> {
    let covering = coverage(tok.table(), merged_by(tok.merges@, byte_ids(text)));
    if covering.len() == text.len() {
        covering
    } else {
        byte_ids(text)
    }
}

/// A prompt and what was generated behind it.
#[derive(Debug, Clone)]
pub struct Generation {
    /// The prompt and the bytes of all tokens behind it.
    pub bytes: Vec<u8>,
    /// The token id for each byte.
    pub bpe_ids: Vec<u32>,
    /// The tokens behind the prompt.
    pub generated: Vec<u32>,
}

impl Generation {
    /// The bytes are the prompt with the generated tokens decoded behind it,
    /// and the ids are theirs.
    pub open spec fn continues(&self, tok: BpeTokenizer, prompt: Seq<u8>) -> bool {
        &&& self.bytes@ == prompt + decoded(tok.table(), self.generated@)
        &&& self.bpe_ids@ == aligned_ids(tok, self.bytes@)
    }

    /// Begin with a prompt.
    pub fn start(tokenizer: &BpeTokenizer, prompt: &[u8]) -> (out: Self)
        requires
            alignable(*tokenizer, prompt@),
        ensures
            out.bytes@ == prompt@,
            out.bpe_ids@ == aligned_ids(*tokenizer, prompt@),
            out.generated@ == Seq::<u32>::empty(),
            out.continues(*tokenizer, prompt@),
            ({
                let covering = coverage(tokenizer.table(), merged_by(tokenizer.merges@, byte_ids(prompt@)));
                out.bpe_ids@ == if covering.len() == prompt@.len() {
                    covering
                } else {
                    byte_ids(prompt@)
                }
            }),
    {
        let bpe_ids = tokenizer.encode_aligned(prompt);
        let mut bytes: Vec<u8> = Vec::with_capacity(prompt.len());
        bytes.extend_from_slice(prompt);
        assert(bytes@ =~= prompt@);
        assert(prompt@ =~= prompt@ + decoded(tokenizer.table(), Seq::<u32>::empty()));
        Generation { bytes, bpe_ids, generated: Vec::new() }
    }

    /// Whether fewer than `max_tokens` tokens have been generated.
    pub fn wants_more(&self, max_tokens: usize) -> (more: bool)
        ensures
            more == (self.generated@.len() < max_tokens),
    {
        self.generated.len() < max_tokens
    }

    /// The position whose next token is to be chosen.
    pub fn position(&self) -> (t: usize)
        requires
            self.bytes@.len() > 0,
        ensures
            t == self.bytes@.len() - 1,
    {
        self.bytes.len() - 1
    }

    /// Append a token.
    pub fn accept(&mut self, tokenizer: &BpeTokenizer, token: u32)
        requires
            tokenizer.id_to_bytes@.len() > 0,
            alignable(
                *tokenizer,
                old(self).bytes@ + entry_or_last(tokenizer.table(), token),
            ),
        ensures
            final(self).generated@ == old(self).generated@.push(token),
            final(self).bytes@ == old(self).bytes@ + entry_or_last(tokenizer.table(), token),
            final(self).bpe_ids@ == aligned_ids(*tokenizer, final(self).bytes@),
            forall|prompt: Seq<u8>| #[trigger]
                old(self).continues(*tokenizer, prompt) ==> final(self).continues(
                    *tokenizer,
                    prompt,
                ),
            final(self).bytes@ == old(self).bytes@ + (if token < tokenizer.id_to_bytes@.len() {
                tokenizer.id_to_bytes@[token as int]@
            } else {
                tokenizer.id_to_bytes@.last()@
            }),
            ({
                let covering = coverage(tokenizer.table(), merged_by(tokenizer.merges@, byte_ids(final(self).bytes@)));
                final(self).bpe_ids@ == if covering.len() == final(self).bytes@.len() {
                    covering
                } else {
                    byte_ids(final(self).bytes@)
                }
            }),
    {
        let ghost before = self.bytes@;
        let ghost tokens = self.generated@;
        let ghost table = tokenizer.table();
        self.generated.push(token);
        let one: Vec<u32> = vec![token];
        let token_bytes = tokenizer.decode(&one);
        proof {
            assert(one@ =~= seq![token]);
            assert(one@.drop_last() =~= Seq::<u32>::empty());
            assert(decoded(table, one@.drop_last()) =~= Seq::<u8>::empty());
            assert(token_bytes@ =~= entry_or_last(table, token));
        }
        self.bytes.extend_from_slice(&token_bytes);
        assert(self.bytes@ =~= before + entry_or_last(table, token));
        self.bpe_ids = tokenizer.encode_aligned(&self.bytes);
        proof {
            assert(self.generated@.drop_last() =~= tokens);
            assert forall|prompt: Seq<u8>| #[trigger]
                old(self).continues(*tokenizer, prompt) implies self.continues(
                *tokenizer,
                prompt,
            ) by {
                assert(prompt + decoded(table, tokens) + entry_or_last(table, token) =~= prompt + (
                decoded(table, tokens) + entry_or_last(table, token)));
            }
        }
    }

    /// The bytes of all generated tokens.
    pub fn finish(&self, tokenizer: &BpeTokenizer) -> (text: Vec<u8>)
        requires
            self.generated@.len() > 0 ==> tokenizer.id_to_bytes@.len() > 0,
        ensures
            text@ == decoded(tokenizer.table(), self.generated@),
            text@ == self.generated@.map_values(
                |id: u32|
                    if id < tokenizer.id_to_bytes@.len() {
                        tokenizer.id_to_bytes@[id as int]@
                    } else {
                        tokenizer.id_to_bytes@.last()@
                    },
            ).flatten(),
    {
        tokenizer.decode(&self.generated)
    }
}

/// What is generated is what stands behind the prompt.
pub proof fn generated_text_follows_prompt(
    state: Generation,
    tok: BpeTokenizer,
    prompt: Seq<u8>,
)
    requires
        state.continues(tok, prompt),
    ensures
        prompt.len() <= state.bytes@.len(),
        state.bytes@.take(prompt.len() as int) == prompt,
        state.bytes@.skip(prompt.len() as int) == decoded(tok.table(), state.generated@),
{
    assert(state.bytes@.take(prompt.len() as int) =~= prompt);
    assert(state.bytes@.skip(prompt.len() as int) =~= decoded(tok.table(), state.generated@));
}

/// With a well-formed tokenizer every text can be encoded position by position,
/// and every byte gets an id.
pub proof fn every_text_alignable(tok: BpeTokenizer, text: Seq<u8>)
    requires
        tok.well_formed(),
    ensures
        alignable(tok, text),
        aligned_ids(tok, text).len() == text.len(),
{
    crate::tokenizer::decode_undoes_encode(tok, text);
    crate::tokenizer::aligned_covers_text(tok, text);
}

/// With a well-formed tokenizer each byte of a text has the id of the token
/// that covers it: that token whose bytes begin at or before the byte and end
/// behind it.
pub proof fn bytes_have_covering_tokens(
    tok: BpeTokenizer,
    text: Seq<u8>,
    k: int,
    position: int,
)
    requires
        tok.well_formed(),
        0 <= k < merged_by(tok.merges@, byte_ids(text)).len(),
        decoded(tok.table(), merged_by(tok.merges@, byte_ids(text)).take(k)).len() <= position
            < decoded(tok.table(), merged_by(tok.merges@, byte_ids(text)).take(k + 1)).len(),
    ensures
        position < text.len(),
        aligned_ids(tok, text)[position] == merged_by(tok.merges@, byte_ids(text))[k],
{
    let ids = merged_by(tok.merges@, byte_ids(text));
    every_text_alignable(tok, text);
    crate::tokenizer::aligned_covers_text(tok, text);
    assert(forall|i: int| 0 <= i < ids.take(k).len() ==> ids.take(k)[i] == ids[i]);
    assert(forall|i: int| 0 <= i < ids.take(k + 1).len() ==> ids.take(k + 1)[i] == ids[i]);
    crate::tokenizer::decoded_is_expansion(tok.table(), ids.take(k));
    crate::tokenizer::decoded_is_expansion(tok.table(), ids.take(k + 1));
    crate::tokenizer::token_covers(tok.table(), ids, k, position);
}

/// A state continues a prompt exactly where its bytes are the prompt with the
/// bytes of the generated tokens behind it, and its ids are those of its bytes.
pub proof fn continuing_is_appending(state: Generation, tok: BpeTokenizer, prompt: Seq<u8>)
    ensures
        state.continues(tok, prompt) <==> state.bytes@ == prompt + decoded(
            tok.table(),
            state.generated@,
        ) && state.bpe_ids@ == aligned_ids(tok, state.bytes@),
        alignable(tok, prompt) <==> forall|i: int|
            0 <= i < merged_by(tok.merges@, byte_ids(prompt)).len() ==> #[trigger] merged_by(
                tok.merges@,
                byte_ids(prompt),
            )[i] < tok.id_to_bytes@.len(),
{
}

} // verus!
