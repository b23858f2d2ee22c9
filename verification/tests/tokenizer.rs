use arca::merge::{apply_merge, MergeRule};
use arca::payload::TokenizerPayload;
use arca::tokenizer::BpeTokenizer;

#[test]
fn base_vocab_size() {
    let tok = BpeTokenizer::new_base();
    assert_eq!(tok.vocab_size(), 256);
}

#[test]
fn roundtrip_no_merges() {
    let tok = BpeTokenizer::new_base();
    let text = b"Hello, ARCA!";
    let ids = tok.encode(text);
    let back = tok.decode(&ids);
    assert_eq!(back, text);
}

#[test]
fn train_reduces_sequence_length() {
    let corpus = b"aaabdaaabac";
    let tok = BpeTokenizer::train(corpus, 10, 300);
    let encoded = tok.encode(corpus);
    // After merging common pairs the sequence must be shorter than byte-level
    assert!(encoded.len() < corpus.len(), "BPE should compress repeating bytes");
}

#[test]
fn roundtrip_after_training() {
    let corpus = b"the quick brown fox jumps over the lazy dog";
    let tok = BpeTokenizer::train(corpus, 20, 300);
    let ids = tok.encode(corpus);
    let back = tok.decode(&ids);
    assert_eq!(back, corpus);
}

#[test]
fn aligned_encode_length_matches() {
    let corpus = b"hello world";
    let tok = BpeTokenizer::train(corpus, 5, 300);
    let aligned = tok.encode_aligned(corpus);
    assert_eq!(aligned.len(), corpus.len());
}

#[test]
fn save_load_roundtrip() {
    let corpus = b"abracadabra";
    let tok = BpeTokenizer::train(corpus, 5, 300);
    let stored = tok.to_payload();
    assert!(stored.is_readable());
    let tok2 = BpeTokenizer::from_payload(&stored);
    assert_eq!(tok.merges, tok2.merges);
    assert_eq!(tok.encode(corpus), tok2.encode(corpus));
}

#[test]
fn stored_tokenizer_keeps_table_and_vocabulary() {
    let tok = BpeTokenizer::train(b"banana bandana", 6, 300);
    let back = BpeTokenizer::from_payload(&tok.to_payload());
    assert_eq!(back.id_to_bytes, tok.id_to_bytes);
    assert_eq!(back.vocab.len(), tok.vocab.len());
    for bytes in &tok.id_to_bytes {
        assert_eq!(back.vocab.get(bytes), tok.vocab.get(bytes));
    }
}

#[test]
fn first_merge_is_the_most_frequent_pair() {
    // "ab" occurs four times, "ba" three times.
    let tok = BpeTokenizer::train(b"abababab", 1, 300);
    assert_eq!(tok.merges, vec![MergeRule { left: 97, right: 98, result: 256 }]);
    assert_eq!(tok.encode(b"abababab"), vec![256, 256, 256, 256]);
    assert_eq!(tok.id_to_bytes[256], b"ab".to_vec());
}

#[test]
fn equal_counts_are_broken_by_the_smaller_sum() {
    // "ab" and "xy" occur twice each, every other pair once.
    let tok = BpeTokenizer::train(b"xy.xy,ab;ab", 1, 300);
    assert_eq!(tok.merges[0], MergeRule { left: 97, right: 98, result: 256 });
}

#[test]
fn equal_sums_are_broken_by_the_smaller_left_id() {
    // "ad", "bc" and "cb" occur twice each and have the same sum.
    let tok = BpeTokenizer::train(b"cb.bc,ad;cb/bc:ad", 1, 300);
    assert_eq!(tok.merges[0], MergeRule { left: 97, right: 100, result: 256 });
}

#[test]
fn training_is_repeatable() {
    let corpus = b"the quick brown fox jumps over the lazy dog";
    let first = BpeTokenizer::train(corpus, 40, 300);
    for _ in 0..20 {
        let again = BpeTokenizer::train(corpus, 40, 300);
        assert_eq!(again.merges, first.merges);
        assert_eq!(again.id_to_bytes, first.id_to_bytes);
    }
}

#[test]
fn no_pair_of_a_rule_is_left() {
    let tok = BpeTokenizer::train(b"aaabdaaabacaaabdaaabac", 6, 300);
    let ids = tok.encode(b"aaaaabdabacabdaaabacaaa");
    for rule in &tok.merges {
        assert!(ids.windows(2).all(|w| (w[0], w[1]) != (rule.left, rule.right)));
    }
}

#[test]
fn counts_are_exact_on_a_long_corpus() {
    // Enough windows for the work to be split.
    let mut corpus: Vec<u8> = Vec::new();
    for i in 0..40_000u32 {
        corpus.push((i % 5) as u8);
        if i % 3 == 0 {
            corpus.push(200);
            corpus.push(201);
        }
    }
    // (200, 201) occurs 13334 times; no other pair occurs more than 6000 times.
    let tok = BpeTokenizer::train(&corpus, 1, 300);
    assert_eq!(tok.merges[0], MergeRule { left: 200, right: 201, result: 256 });
    assert_eq!(tok.encode(&corpus).len(), corpus.len() - 13_334);
}

#[test]
fn vocabulary_stays_within_its_limit() {
    let corpus = b"the rain in spain stays mainly in the plain";
    let tok = BpeTokenizer::train(corpus, 100, 260);
    assert_eq!(tok.vocab_size(), 260);
    assert_eq!(tok.merges.len(), 4);
    let none = BpeTokenizer::train(corpus, 100, 100);
    assert_eq!(none.vocab_size(), 256);
}

#[test]
fn training_ends_with_a_single_token() {
    let tok = BpeTokenizer::train(b"abcd", 100, 1000);
    assert_eq!(tok.merges.len(), 3);
    assert_eq!(tok.encode(b"abcd"), vec![258]);
    assert_eq!(BpeTokenizer::train(b"", 10, 1000).merges.len(), 0);
    assert_eq!(BpeTokenizer::train(b"x", 10, 1000).merges.len(), 0);
}

#[test]
fn merge_scans_from_the_left() {
    assert_eq!(apply_merge(&[1, 1, 1], 1, 1, 9), vec![9, 1]);
    assert_eq!(apply_merge(&[1, 2, 1, 2, 3], 1, 2, 9), vec![9, 9, 3]);
    assert_eq!(apply_merge(&[], 1, 2, 9), Vec::<u32>::new());
}

#[test]
fn aligned_ids_cover_their_bytes() {
    let tok = BpeTokenizer::train(b"abababab", 1, 300);
    assert_eq!(tok.encode_aligned(b"xaby"), vec![120, 256, 256, 121]);
}

#[test]
fn aligned_falls_back_to_bytes() {
    let mut tok = BpeTokenizer::train(b"abababab", 1, 300);
    tok.id_to_bytes[256] = vec![1, 2, 3];
    assert_eq!(tok.encode_aligned(b"ab"), vec![97, 98]);
}

#[test]
fn ids_past_the_table_decode_as_its_last_entry() {
    let tok = BpeTokenizer::train(b"abababab", 1, 300);
    assert_eq!(tok.decode(&[97, 100_000]), b"aab".to_vec());
}

#[test]
fn encoding_never_lengthens() {
    let tok = BpeTokenizer::train(b"some words, some more words", 12, 300);
    for text in [&b""[..], b"s", b"so", b"words and words", b"unrelated"] {
        assert!(tok.encode(text).len() <= text.len());
    }
}

#[test]
fn hexadecimal_texts() {
    let stored = TokenizerPayload {
        vocab: vec![("0aFf".to_string(), 1), ("0aff".to_string(), 2)],
        merges: Vec::new(),
        id_to_bytes: vec!["".to_string(), "+7zz10".to_string(), "é0".to_string()],
    };
    assert!(!stored.is_readable());
    let stored = TokenizerPayload {
        vocab: stored.vocab,
        merges: Vec::new(),
        id_to_bytes: vec!["".to_string(), "+7zz10".to_string(), "é".to_string()],
    };
    assert!(stored.is_readable());
    let tok = BpeTokenizer::from_payload(&stored);
    assert_eq!(tok.id_to_bytes, vec![vec![], vec![7, 0, 16], vec![0]]);
    assert_eq!(tok.vocab.len(), 1);
    assert_eq!(tok.vocab.get(&[10, 255]), Some(2));
    assert_eq!(tok.vocab.get(&[10]), None);
}

#[test]
fn a_character_across_a_pair_is_not_readable() {
    let stored = TokenizerPayload {
        vocab: Vec::new(),
        merges: Vec::new(),
        id_to_bytes: vec!["0é1".to_string()],
    };
    assert!(!stored.is_readable());
}
