use arca::sampling::{
    by_descending_weight, draw, drawn_token, greedy_tokens, is_greedy, nucleus_len,
};

fn bits(values: &[f32]) -> Vec<u32> {
    values.iter().map(|v| v.to_bits()).collect()
}

#[test]
fn low_temperatures_are_greedy() {
    assert!(is_greedy(0.0f32.to_bits()));
    assert!(is_greedy(1e-5f32.to_bits()));
    assert!(is_greedy((-1.0f32).to_bits()));
    assert!(!is_greedy(1.1e-5f32.to_bits()));
    assert!(!is_greedy(0.7f32.to_bits()));
    assert!(!is_greedy(f32::NAN.to_bits()));
}

#[test]
fn weights_are_sorted_down_and_stable() {
    let order = by_descending_weight(&bits(&[0.1, 0.5, 0.5, 0.9, 0.1]));
    assert_eq!(order, vec![3, 1, 2, 0, 4]);
    assert_eq!(by_descending_weight(&[]), Vec::<usize>::new());
}

#[test]
fn nucleus_is_as_small_as_possible() {
    let cumulative = bits(&[0.5, 0.8, 0.95, 1.0]);
    assert_eq!(nucleus_len(&cumulative, 0.9f32.to_bits()), 3);
    assert_eq!(nucleus_len(&cumulative, 0.8f32.to_bits()), 2);
    assert_eq!(nucleus_len(&cumulative, 0.0f32.to_bits()), 1);
    assert_eq!(nucleus_len(&cumulative, 2.0f32.to_bits()), 4);
}

#[test]
fn draw_takes_the_first_that_reaches_the_target() {
    let accumulated = bits(&[0.25, 0.75, 1.0]);
    assert_eq!(draw(&accumulated, 0.0f32.to_bits()), 0);
    assert_eq!(draw(&accumulated, 0.25f32.to_bits()), 0);
    assert_eq!(draw(&accumulated, 0.5f32.to_bits()), 1);
    assert_eq!(draw(&accumulated, 5.0f32.to_bits()), 2);
}

#[test]
fn drawn_token_follows_the_order() {
    let tokens = [100u32, 200, 300];
    let order = [2usize, 0, 1];
    let accumulated = bits(&[0.6, 0.9]);
    assert_eq!(drawn_token(&tokens, &order, &accumulated, 0.1f32.to_bits()), 300);
    assert_eq!(drawn_token(&tokens, &order, &accumulated, 0.7f32.to_bits()), 100);
    assert_eq!(drawn_token(&tokens, &order, &accumulated, 0.95f32.to_bits()), 100);
}

#[test]
fn greedy_takes_the_first_of_each_row() {
    assert_eq!(greedy_tokens(&[vec![4, 9], vec![7], vec![1, 2, 3]]), vec![4, 7, 1]);
    assert_eq!(greedy_tokens(&[]), Vec::<u32>::new());
}
