//! The plain form in which a tokenizer is stored: byte strings as hexadecimal
//! text.

use crate::hex::{from_hex, is_pairable, to_hex};
use crate::merge::MergeRule;
use crate::tokenizer::BpeTokenizer;
use crate::vocab::Vocab;
use vstd::prelude::*;

verus! {

use crate::hex::{hex_text, pairable, read_text};
use crate::merge::{byte_ids, merged_by};
use crate::tokenizer::decoded;
use crate::vocab::map_of;
use vstd::utf8::encode_utf8;

/// A tokenizer as text and numbers.
#[derive(Debug, Clone)]
pub struct TokenizerPayload {
    /// The hexadecimal text of each vocabulary entry, with its id.
    pub vocab: Vec<(String, u32)>,
    pub merges: Vec<MergeRule>,
    /// The hexadecimal text of the bytes of each id.
    pub id_to_bytes: Vec<String>,
}

/// The texts of a table.
pub open spec fn written_table(table: Seq<Seq<u8>>) -> Seq<Seq<char>> {
    table.map_values(|bytes: Seq<u8>| hex_text(bytes))
}

/// The texts of a listing, with the ids.
pub open spec fn written_listing(listing: Seq<(Seq<u8>, u32)>) -> Seq<(Seq<char>, u32)> {
    listing.map_values(|e: (Seq<u8>, u32)| (hex_text(e.0), e.1))
}

/// The bytes that each text reads as.
pub open spec fn read_table(texts: Seq<Seq<char>>) -> Seq<Seq<u8>> {
    texts.map_values(|t: Seq<char>| read_text(encode_utf8(t)))
}

/// The bytes that each text reads as, with the ids.
pub open spec fn read_listing(texts: Seq<(Seq<char>, u32)>) -> Seq<(Seq<u8>, u32)> {
    texts.map_values(|e: (Seq<char>, u32)| (read_text(encode_utf8(e.0)), e.1))
}

impl TokenizerPayload {
    pub open spec fn table_texts(&self) -> Seq<Seq<char>> {
        self.id_to_bytes@.map_values(|t: String| t@)
    }

    pub open spec fn vocab_texts(&self) -> Seq<(Seq<char>, u32)> {
        self.vocab@.map_values(|e: (String, u32)| (e.0@, e.1))
    }

    /// Every text can be cut into pieces of two bytes.
    pub open spec fn readable(&self) -> bool {
        &&& forall|i: int|
            0 <= i < self.table_texts().len() ==> pairable(
                encode_utf8(#[trigger] self.table_texts()[i]),
            )
        &&& forall|i: int|
            0 <= i < self.vocab_texts().len() ==> pairable(
                encode_utf8((#[trigger] self.vocab_texts()[i]).0),
            )
    }

    /// Whether every text can be cut into pieces of two bytes.
    pub fn is_readable(&self) -> (ok: bool)
        ensures
            ok == self.readable(),
            ok <==> (forall|i: int|
                0 <= i < self.id_to_bytes@.len() ==> pairable(
                    encode_utf8((#[trigger] self.id_to_bytes@[i])@),
                )) && (forall|i: int|
                0 <= i < self.vocab@.len() ==> pairable(
                    encode_utf8((#[trigger] self.vocab@[i]).0@),
                )),
    {
        let mut i: usize = 0;
        while i < self.id_to_bytes.len()
            invariant
                i <= self.id_to_bytes.len(),
                forall|j: int|
                    0 <= j < i ==> pairable(encode_utf8(#[trigger] self.table_texts()[j])),
            decreases self.id_to_bytes.len() - i,
        {
            assert(self.table_texts()[i as int] == self.id_to_bytes@[i as int]@);
            if !is_pairable(self.id_to_bytes[i].as_str()) {
                return false;
            }
            i += 1;
        }
        let mut i: usize = 0;
        while i < self.vocab.len()
            invariant
                i <= self.vocab.len(),
                forall|j: int|
                    0 <= j < i ==> pairable(encode_utf8((#[trigger] self.vocab_texts()[j]).0)),
            decreases self.vocab.len() - i,
        {
            assert(self.vocab_texts()[i as int].0 == self.vocab@[i as int].0@);
            if !is_pairable(self.vocab[i].0.as_str()) {
                return false;
            }
            i += 1;
        }
        assert forall|j: int| 0 <= j < self.id_to_bytes@.len() implies pairable(
            encode_utf8((#[trigger] self.id_to_bytes@[j])@),
        ) by {
            assert(self.table_texts()[j] == self.id_to_bytes@[j]@);
        }
        assert forall|j: int| 0 <= j < self.vocab@.len() implies pairable(
            encode_utf8((#[trigger] self.vocab@[j]).0@),
        ) by {
            assert(self.vocab_texts()[j].0 == self.vocab@[j].0@);
        }
        true
    }
}

impl BpeTokenizer {
    /// Write the tokenizer as text and numbers.
    pub fn to_payload(&self) -> (out: TokenizerPayload)
        ensures
            out.merges@ == self.merges@,
            out.table_texts() == written_table(self.table()),
            out.vocab_texts() == written_listing(self.vocab.listing()),
            out.id_to_bytes@.len() == self.id_to_bytes@.len(),
            forall|i: int|
                0 <= i < out.id_to_bytes@.len() ==> (#[trigger] out.id_to_bytes@[i])@ == hex_text(
                    self.id_to_bytes@[i]@,
                ),
            out.vocab@.len() == self.vocab.listing().len(),
            forall|i: int|
                0 <= i < out.vocab@.len() ==> (#[trigger] out.vocab@[i]).0@ == hex_text(
                    self.vocab.listing()[i].0,
                ) && out.vocab@[i].1 == self.vocab.listing()[i].1,
    {
        let mut vocab: Vec<(String, u32)> = Vec::new();
        let mut i: usize = 0;
        while i < self.vocab.len()
            invariant
                i <= self.vocab.listing().len(),
                vocab@.len() == i,
                forall|j: int|
                    0 <= j < i ==> (#[trigger] vocab@[j]).0@ == hex_text(
                        self.vocab.listing()[j].0,
                    ) && vocab@[j].1 == self.vocab.listing()[j].1,
            decreases self.vocab.listing().len() - i,
        {
            vocab.push((to_hex(self.vocab.key(i)), self.vocab.id(i)));
            i += 1;
        }
        let mut id_to_bytes: Vec<String> = Vec::new();
        let mut i: usize = 0;
        while i < self.id_to_bytes.len()
            invariant
                i <= self.id_to_bytes.len(),
                id_to_bytes@.len() == i,
                forall|j: int|
                    0 <= j < i ==> (#[trigger] id_to_bytes@[j])@ == hex_text(
                        self.id_to_bytes@[j]@,
                    ),
            decreases self.id_to_bytes.len() - i,
        {
            id_to_bytes.push(to_hex(&self.id_to_bytes[i]));
            i += 1;
        }
        let merges = self.merges.clone();
        assert(merges@ =~= self.merges@);
        let out = TokenizerPayload { vocab, merges, id_to_bytes };
        assert(out.table_texts() =~= written_table(self.table()));
        assert(out.vocab_texts() =~= written_listing(self.vocab.listing()));
        out
    }

    /// Read a tokenizer from text and numbers. Of two vocabulary entries with
    /// the same bytes the later one counts.
    pub fn from_payload(payload: &TokenizerPayload) -> (out: Self)
        requires
            payload.readable(),
        ensures
            out.merges@ == payload.merges@,
            out.table() == read_table(payload.table_texts()),
            out.vocab.well_formed(),
            out.vocab@ == map_of(read_listing(payload.vocab_texts())),
            out.id_to_bytes@.len() == payload.id_to_bytes@.len(),
            forall|i: int|
                0 <= i < out.id_to_bytes@.len() ==> (#[trigger] out.id_to_bytes@[i])@ == read_text(
                    encode_utf8(payload.id_to_bytes@[i]@),
                ),
            out.vocab@ == map_of(
                payload.vocab@.map_values(
                    |e: (String, u32)| (read_text(encode_utf8(e.0@)), e.1),
                ),
            ),
    {
        let mut id_to_bytes: Vec<Vec<u8>> = Vec::new();
        let mut i: usize = 0;
        while i < payload.id_to_bytes.len()
            invariant
                i <= payload.id_to_bytes.len(),
                payload.readable(),
                id_to_bytes@.len() == i,
                forall|j: int|
                    0 <= j < i ==> (#[trigger] id_to_bytes@[j])@ == read_text(
                        encode_utf8(payload.id_to_bytes@[j]@),
                    ),
            decreases payload.id_to_bytes.len() - i,
        {
            assert(payload.table_texts()[i as int] == payload.id_to_bytes@[i as int]@);
            id_to_bytes.push(from_hex(payload.id_to_bytes[i].as_str()));
            i += 1;
        }
        let mut vocab = Vocab::new();
        let ghost listing = read_listing(payload.vocab_texts());
        assert(listing.take(0) =~= Seq::<(Seq<u8>, u32)>::empty());
        let mut i: usize = 0;
        while i < payload.vocab.len()
            invariant
                i <= payload.vocab.len(),
                payload.readable(),
                listing == read_listing(payload.vocab_texts()),
                vocab.well_formed(),
                vocab@ == map_of(listing.take(i as int)),
            decreases payload.vocab.len() - i,
        {
            assert(payload.vocab_texts()[i as int].0 == payload.vocab@[i as int].0@);
            let bytes = from_hex(payload.vocab[i].0.as_str());
            vocab.insert(bytes, payload.vocab[i].1);
            proof {
                let longer = listing.take(i + 1);
                assert(longer.drop_last() =~= listing.take(i as int));
                assert(longer.last() == listing[i as int]);
                assert(listing[i as int] == (bytes@, payload.vocab@[i as int].1));
            }
            i += 1;
        }
        assert(listing.take(i as int) =~= listing);
        let merges = payload.merges.clone();
        assert(merges@ =~= payload.merges@);
        let out = BpeTokenizer { vocab, merges, id_to_bytes };
        assert(out.table() =~= read_table(payload.table_texts()));
        assert(listing =~= payload.vocab@.map_values(
            |e: (String, u32)| (read_text(encode_utf8(e.0@)), e.1),
        ));
        out
    }
}

/// What `to_payload` writes can be read, and `from_payload` gives the same
/// merges, the same table and the same vocabulary back.
pub proof fn payload_round_trip(tok: BpeTokenizer, stored: TokenizerPayload)
    requires
        stored.merges@ == tok.merges@,
        stored.table_texts() == written_table(tok.table()),
        stored.vocab_texts() == written_listing(tok.vocab.listing()),
    ensures
        stored.readable(),
        read_table(stored.table_texts()) == tok.table(),
        map_of(read_listing(stored.vocab_texts())) == tok.vocab@,
{
    let table = tok.table();
    let listing = tok.vocab.listing();
    assert forall|i: int| 0 <= i < table.len() implies {
        &&& pairable(encode_utf8(#[trigger] stored.table_texts()[i]))
        &&& read_text(encode_utf8(stored.table_texts()[i])) == table[i]
    } by {
        crate::hex::hex_round_trip(table[i]);
    }
    assert forall|i: int| 0 <= i < listing.len() implies {
        &&& pairable(encode_utf8((#[trigger] stored.vocab_texts()[i]).0))
        &&& read_text(encode_utf8(stored.vocab_texts()[i].0)) == listing[i].0
    } by {
        crate::hex::hex_round_trip(listing[i].0);
    }
    assert(read_table(stored.table_texts()) =~= table);
    assert(read_listing(stored.vocab_texts()) =~= listing);
}

/// A tokenizer that is stored and loaded again has the same merges, table and
/// vocabulary, and is well-formed where the stored one was: it encodes and
/// decodes every text alike.
pub proof fn reloaded_tokenizer_is_the_same(
    tok: BpeTokenizer,
    stored: TokenizerPayload,
    loaded: BpeTokenizer,
)
    requires
        stored.merges@ == tok.merges@,
        stored.table_texts() == written_table(tok.table()),
        stored.vocab_texts() == written_listing(tok.vocab.listing()),
        loaded.merges@ == stored.merges@,
        loaded.table() == read_table(stored.table_texts()),
        loaded.vocab.well_formed(),
        loaded.vocab@ == map_of(read_listing(stored.vocab_texts())),
    ensures
        loaded.merges@ == tok.merges@,
        loaded.table() == tok.table(),
        loaded.vocab@ == tok.vocab@,
        tok.well_formed() ==> loaded.well_formed(),
        forall|text: Seq<u8>| #[trigger]
            merged_by(loaded.merges@, byte_ids(text)) == merged_by(tok.merges@, byte_ids(text)),
        forall|ids: Seq<u32>| #[trigger]
            decoded(loaded.table(), ids) == decoded(tok.table(), ids),
{
    payload_round_trip(tok, stored);
}

} // verus!
