//! The parts of sampling that only compare, and the generator.

use rocml::sample::{
    argmax, penalty_window, sorted_indices, top_candidates, Rng, SamplingParams,
};

fn bits(values: &[f32]) -> Vec<u32> {
    values.iter().map(|v| v.to_bits()).collect()
}

fn make_logits(n: usize, peak: usize) -> Vec<f32> {
    let mut v: Vec<f32> = (0..n).map(|i| -(i as f32)).collect();
    v[peak] = 100.0;
    v
}

#[test]
fn temperature_zero_is_argmax() {
    let logits = bits(&[0.1, 5.0, -3.0, 4.9]);
    let params = SamplingParams { temperature: 0.0f32.to_bits(), ..SamplingParams::default() };
    assert!(params.is_greedy());
    assert_eq!(argmax(&logits), 1);
}

#[test]
fn top_k_one_matches_argmax() {
    let logits = bits(&make_logits(50, 7));
    assert_eq!(argmax(&logits), 7);
    assert_eq!(top_candidates(&logits, 1), vec![7]);
}

#[test]
fn sampled_token_is_within_top_k_set() {
    // Strictly increasing (all distinct, no ties) with one dominant spike,
    // so the top five by value are unambiguous.
    let mut logits: Vec<f32> = (0..200).map(|i| i as f32 * 0.01).collect();
    logits[20] = 1000.0;
    assert_eq!(top_candidates(&bits(&logits), 5), vec![20, 199, 198, 197, 196]);
}

#[test]
fn repeat_penalty_disabled_by_default() {
    let params = SamplingParams::default();
    assert!(params.repeat_penalty.is_none());
    assert_eq!(params.repeat_penalty_window, 64);
    assert!(SamplingParams::greedy().is_greedy());
}

#[test]
fn candidate_limit_is_clamped() {
    let logits = bits(&[1.0, -1.0, 3.0]);
    assert_eq!(top_candidates(&logits, 0), vec![2]);
    assert_eq!(top_candidates(&logits, 10), vec![2, 0, 1]);
    assert_eq!(sorted_indices(&logits), vec![2, 0, 1]);
}

#[test]
fn equal_values_are_ordered_by_index() {
    let logits = bits(&[1.0, 7.0, -0.0, 7.0, 0.0, 1.0, 7.0]);
    assert_eq!(sorted_indices(&logits), vec![1, 3, 6, 0, 5, 2, 4]);
    assert_eq!(top_candidates(&logits, 2), vec![1, 3]);
    assert_eq!(top_candidates(&logits, 4), vec![1, 3, 6, 0]);
}

#[test]
fn first_of_equal_values_wins() {
    assert_eq!(argmax(&bits(&[2.0, 7.0, 7.0, 1.0])), 1);
    assert_eq!(argmax(&bits(&[-0.0, 0.0])), 0);
}

#[test]
fn values_that_are_no_numbers_never_win() {
    assert_eq!(argmax(&bits(&[f32::NAN, -5.0, f32::NAN])), 1);
    assert_eq!(argmax(&bits(&[f32::NAN, f32::NEG_INFINITY])), 0);
    assert_eq!(argmax(&[]), 0);
}

#[test]
fn temperature_decides_greediness() {
    let with = |t: f32| SamplingParams { temperature: t.to_bits(), ..SamplingParams::default() };
    assert!(with(-1.0).is_greedy());
    assert!(with(-0.0).is_greedy());
    assert!(!with(0.7).is_greedy());
    assert!(!with(f32::NAN).is_greedy());
}

#[test]
fn generator_is_deterministic_and_never_stuck() {
    let mut a = Rng::new(42);
    let mut b = Rng::new(42);
    let first: Vec<u64> = (0..10).map(|_| a.next_u64()).collect();
    let second: Vec<u64> = (0..10).map(|_| b.next_u64()).collect();
    assert_eq!(first, second);
    assert!(first.iter().any(|x| *x != first[0]));
    let mut zero = Rng::new(0);
    let mut remapped = Rng::new(0x9E37_79B9_7F4A_7C15);
    assert_eq!(zero.next_u64(), remapped.next_u64());
    assert!(zero.next_draw() < 1 << 24);
}

#[test]
fn generator_output_is_the_scrambled_state() {
    // One step by hand, from state one.
    let x: u64 = 1;
    let x = x ^ (x >> 12);
    let x = x ^ (x << 25);
    let x = x ^ (x >> 27);
    let want = x.wrapping_mul(0x2545_F491_4F6C_DD1D);
    assert_eq!(Rng::new(1).next_u64(), want);
    assert_eq!(Rng::new(1).next_draw() as u64, want >> 40);
}

#[test]
fn penalty_looks_at_the_last_tokens_only() {
    let history = [1, 2, 3, 4, 5];
    assert_eq!(penalty_window(&history, 2), &[4, 5]);
    assert_eq!(penalty_window(&history, 9), &[1, 2, 3, 4, 5]);
    assert!(penalty_window(&history, 0).is_empty());
}
