use arca::encoder::{
    ngram_hash, MultiScaleEncoder, BPE_VOCAB_SIZE, D_BPE, D_BYTES, D_CONCAT, D_MODEL, D_PHRASE,
    PHRASE_WIN_MIN,
};
use arca::ieee::{check_nan, le, lt};
use arca::metabolic_core::{BioInspiredLayer, LiquidReservoir, LshRouter, N_RES, RANK_R};
use arca::tensor::Matrix;

#[test]
fn reservoir_struct_construction() {
    let r = Matrix::zeros(N_RES, N_RES);
    let w_in = Matrix::zeros(N_RES, D_MODEL);
    let _res = LiquidReservoir::new(r, w_in);
}

#[test]
fn layer_struct_construction() {
    let w_down = Matrix::zeros(RANK_R, D_MODEL);
    let w_up = Matrix::zeros(RANK_R, N_RES);
    let m_base = Matrix::zeros(RANK_R, RANK_R);
    let _layer = BioInspiredLayer::new(w_down, w_up, m_base, 0.0f32.to_bits());
}

#[test]
fn lsh_hash_length_and_hamming() {
    let k = 32usize;
    let w_lsh = Matrix::zeros(k, N_RES);
    let router = LshRouter::new(w_lsh);
    // The projections of the zero state through a zero matrix.
    let hash = router.hash(&vec![0.0f32.to_bits(); k]);
    assert_eq!(hash.len(), k);

    let all_true = vec![true; k];
    let all_false = vec![false; k];
    assert_eq!(LshRouter::hamming(&all_true, &all_false), k);
    assert_eq!(LshRouter::hamming(&all_true, &all_true), 0);
}

#[test]
fn signature_is_the_sign() {
    let router = LshRouter::new(Matrix::zeros(5, N_RES));
    let projections: Vec<u32> =
        [1.5f32, -0.25, 0.0, -0.0, f32::NAN].iter().map(|v| v.to_bits()).collect();
    assert_eq!(router.hash(&projections), vec![true, false, true, true, false]);
}

#[test]
fn distance_is_a_metric() {
    let a = [true, false, true, true];
    let b = [true, true, false, true];
    let c = [false, true, false, true];
    assert_eq!(LshRouter::hamming(&a, &b), 2);
    assert_eq!(LshRouter::hamming(&b, &a), 2);
    assert_eq!(LshRouter::hamming(&a, &c), 3);
    assert!(
        LshRouter::hamming(&a, &c) <= LshRouter::hamming(&a, &b) + LshRouter::hamming(&b, &c)
    );
}

#[test]
fn bit_patterns_compare_like_values() {
    let values = [
        f32::NEG_INFINITY,
        -2.5,
        -1.0e-40,
        -0.0,
        0.0,
        1.0e-40,
        1.0,
        3.5,
        f32::INFINITY,
        f32::NAN,
    ];
    for &a in &values {
        assert_eq!(check_nan(a.to_bits()), a.is_nan());
        for &b in &values {
            assert_eq!(lt(a.to_bits(), b.to_bits()), a < b, "{} < {}", a, b);
            assert_eq!(le(a.to_bits(), b.to_bits()), a <= b, "{} <= {}", a, b);
        }
    }
}

#[test]
fn fnv_known_values() {
    assert_eq!(ngram_hash(b""), 0xcbf2_9ce4_8422_2325);
    assert_eq!(ngram_hash(b"a"), 0xaf63_dc4c_8601_ec8c);
    assert_eq!(ngram_hash(b"foobar"), 0x8594_4171_f739_67e8);
}

fn make_encoder() -> MultiScaleEncoder {
    let mut bpe = Matrix::zeros(BPE_VOCAB_SIZE, D_BPE);
    for v in bpe.data.iter_mut() {
        *v = 0.01f32.to_bits();
    }
    // Identity fusion, and a phrase window of 4.
    let mut w_fusion = Matrix::zeros(D_MODEL, D_MODEL);
    for i in 0..D_MODEL {
        w_fusion.data[i * D_MODEL + i] = 1.0f32.to_bits();
    }
    let w_phrase = Matrix::zeros(D_PHRASE, PHRASE_WIN_MIN * D_BPE);
    MultiScaleEncoder::new(bpe, w_fusion, w_phrase)
}

#[test]
fn output_shape() {
    let enc = make_encoder();
    let bytes = b"Hello, ARCA system!";
    let bpe_ids: Vec<u32> = bytes.iter().map(|&b| b as u32).collect();
    let mut histogram = vec![0.0f32; D_BYTES];
    for (i, bucket) in enc.compute_byte_ngrams(bytes, 5).into_iter().enumerate() {
        histogram[bucket] += 1.0 / (i + 1) as f32;
    }
    let e_bytes: Vec<u32> = histogram.iter().map(|v| v.to_bits()).collect();
    let e_bpe = enc.lookup_bpe(&bpe_ids, 5);
    // The zero phrase projection gives zeros.
    let x = MultiScaleEncoder::fusion_input(&e_bytes, &e_bpe, &vec![0; D_PHRASE]);
    assert_eq!(x.len(), D_MODEL);
    assert_eq!(x.len(), D_CONCAT);
}

#[test]
fn ngrams_need_history() {
    let enc = make_encoder();
    assert_eq!(enc.compute_byte_ngrams(b"abc", 0).len(), 1);
    assert_eq!(enc.compute_byte_ngrams(b"abc", 1).len(), 2);
    let full = enc.compute_byte_ngrams(b"abcd", 2);
    assert_eq!(
        full,
        vec![
            (ngram_hash(b"c") % 128) as usize,
            (ngram_hash(b"bc") % 128) as usize,
            (ngram_hash(b"abc") % 128) as usize
        ]
    );
    // What comes later does not matter.
    assert_eq!(full, enc.compute_byte_ngrams(b"abcxyz", 2));
}

#[test]
fn window_is_padded_and_wraps_ids() {
    let mut enc = make_encoder();
    for (i, v) in enc.bpe_embeddings.data.iter_mut().enumerate() {
        *v = (i / D_BPE) as u32;
    }
    let ids = [5u32, 4096 + 7, 9];
    assert_eq!(enc.lookup_bpe(&ids, 1), vec![7; D_BPE]);
    let window = enc.phrase_inputs(&ids, 2);
    assert_eq!(window.len(), 4 * D_BPE);
    assert_eq!(window[0], 0);
    assert_eq!(window[D_BPE], 5);
    assert_eq!(window[2 * D_BPE], 7);
    assert_eq!(window[4 * D_BPE - 1], 9);
    assert_eq!(enc.phrase_inputs(&[5, 4096 + 7, 9, 1, 2], 2), window);
}

#[test]
fn the_far_past_does_not_matter() {
    let mut enc = make_encoder();
    for (i, v) in enc.bpe_embeddings.data.iter_mut().enumerate() {
        *v = (i / D_BPE) as u32;
    }
    assert_eq!(enc.compute_byte_ngrams(b"xabc", 3), enc.compute_byte_ngrams(b"yabcz", 3));
    assert_ne!(enc.compute_byte_ngrams(b"xabc", 3), enc.compute_byte_ngrams(b"xbbc", 3));
    // Another token before the window of four, and the same rows in it.
    let ids = [1u32, 2, 3, 4, 5];
    let other = [9u32, 2 + 4096, 3, 4 + 2 * 4096, 5];
    assert_eq!(enc.lookup_bpe(&ids, 4), enc.lookup_bpe(&other, 4));
    assert_eq!(enc.phrase_inputs(&ids, 4), enc.phrase_inputs(&other, 4));
    assert_ne!(enc.phrase_inputs(&ids, 3), enc.phrase_inputs(&other, 3));
}
