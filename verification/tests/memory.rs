use arca::memory::{
    sift_down, top_k_indices_and_values, HolographicMemoryAggregator, PredictionHead,
    SparseOutputHead, TOP_K, VOCAB_SIZE,
};
use arca::metabolic_core::{D_MODEL, N_RES};
use arca::tensor::Matrix;

fn bits(values: &[f32]) -> Vec<u32> {
    values.iter().map(|v| v.to_bits()).collect()
}

#[test]
fn top_k_count_and_monotone_ascending_input() {
    // scores = [0, 1, 2, ..., VOCAB_SIZE-1]
    let scores: Vec<f32> = (0..VOCAB_SIZE).map(|i| i as f32).collect();
    let result = top_k_indices_and_values(&bits(&scores), TOP_K);
    assert_eq!(result.len(), TOP_K, "must return exactly TOP_K entries");
    // Largest score is VOCAB_SIZE-1
    assert_eq!(result[0].token_id, (VOCAB_SIZE - 1) as u32);
    // Descending order
    for i in 1..result.len() {
        assert!(
            f32::from_bits(result[i - 1].logit) >= f32::from_bits(result[i].logit),
            "not descending at index {}",
            i
        );
    }
}

#[test]
fn top_k_count_and_monotone_descending_input() {
    // scores = [VOCAB_SIZE-1, VOCAB_SIZE-2, ..., 0]
    let scores: Vec<f32> = (0..VOCAB_SIZE).rev().map(|i| i as f32).collect();
    let result = top_k_indices_and_values(&bits(&scores), TOP_K);
    assert_eq!(result.len(), TOP_K);
    // Token 0 has the highest score (VOCAB_SIZE-1)
    assert_eq!(result[0].token_id, 0u32);
}

#[test]
fn top_k_all_equal_scores() {
    let scores = vec![1.0f32; VOCAB_SIZE];
    let result = top_k_indices_and_values(&bits(&scores), TOP_K);
    assert_eq!(result.len(), TOP_K);
    for sl in &result {
        assert!((f32::from_bits(sl.logit) - 1.0).abs() < 1e-6);
    }
}

#[test]
fn sparse_head_cpu_top_k_shape() {
    let emb = Matrix::zeros(VOCAB_SIZE, D_MODEL);
    let bias = vec![0u32; VOCAB_SIZE];
    let head = SparseOutputHead::new(emb, bias);
    // Zero embeddings, bias and input give a score of zero for every token.
    let top = head.top_k_logits(&vec![0u32; VOCAB_SIZE]);
    assert_eq!(top.len(), TOP_K);
}

#[test]
fn head_keeps_its_parts() {
    let aggregator = HolographicMemoryAggregator::new(Matrix::zeros(D_MODEL, N_RES));
    let head = SparseOutputHead::new(Matrix::zeros(VOCAB_SIZE, D_MODEL), vec![7; VOCAB_SIZE]);
    let both = PredictionHead::new(aggregator, head);
    assert_eq!(both.aggregator.w_out.rows, D_MODEL);
    assert_eq!(both.aggregator.w_out.cols, N_RES);
    assert_eq!(both.head.output_bias[VOCAB_SIZE - 1], 7);
}

#[test]
fn top_k_orders_negative_values_and_zeros() {
    let scores = bits(&[-3.0, 0.5, f32::NEG_INFINITY, -0.0, 2.0, f32::INFINITY, -1.0]);
    let top = top_k_indices_and_values(&scores, 5);
    let ids: Vec<u32> = top.iter().map(|s| s.token_id).collect();
    assert_eq!(ids, vec![5, 4, 1, 3, 6]);
    assert_eq!(top[3].logit, (-0.0f32).to_bits());
    let all = top_k_indices_and_values(&scores, 7);
    assert_eq!(all[6].token_id, 2);
}

#[test]
fn best_of_one() {
    let top = top_k_indices_and_values(&bits(&[1.0, 9.0, 3.0]), 1);
    assert_eq!(top.len(), 1);
    assert_eq!(top[0].token_id, 1);
    assert_eq!(f32::from_bits(top[0].logit), 9.0);
}

#[test]
fn first_entry_sinks_to_its_place() {
    let one = |x: f32, id: u32| (x.to_bits(), id);
    let mut buf = vec![one(3.5, 0), one(1.0, 1), one(2.0, 2), one(4.0, 3)];
    sift_down(&mut buf);
    assert_eq!(buf, vec![one(1.0, 1), one(2.0, 2), one(3.5, 0), one(4.0, 3)]);
}

#[test]
fn nan_behind_the_first_scores_is_passed_over() {
    let scores = bits(&[1.0, 2.0, f32::NAN, 3.0, -f32::NAN]);
    let top = top_k_indices_and_values(&scores, 2);
    assert_eq!(top.iter().map(|t| t.token_id).collect::<Vec<u32>>(), vec![3, 1]);
}

#[test]
fn nan_among_the_first_scores_leaves_the_tokens_distinct() {
    let scores = bits(&[f32::NAN, 2.0, 1.0, 3.0]);
    let top = top_k_indices_and_values(&scores, 3);
    assert_eq!(top.len(), 3);
    for (i, t) in top.iter().enumerate() {
        assert_eq!(t.logit, scores[t.token_id as usize]);
        assert!(top[..i].iter().all(|u| u.token_id != t.token_id));
    }
}
