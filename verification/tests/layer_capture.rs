//! Recorded activations.

use rocml::qwen35::forward::layer_capture::{
    comparable_pairs, make_key, split_key, tensor_name, CapturedTensor, LayerCapture,
};
use rocml::qwen35::forward::plan::Probe;

#[test]
fn keys_can_be_split() {
    for layer in [0u32, 7, 42, u32::MAX] {
        for tensor in ["resid_post", "", "a:b"] {
            let key = make_key(layer, tensor);
            assert_eq!(split_key(&key), (layer, tensor.to_string()));
        }
    }
    assert_eq!(make_key(12, "ffn_xn"), "12:ffn_xn");
}

#[test]
fn keys_without_a_layer_read_as_the_largest_one() {
    assert_eq!(split_key("no colon"), (u32::MAX, "no colon".to_string()));
    assert_eq!(split_key("x:t"), (u32::MAX, "t".to_string()));
    assert_eq!(split_key(":t"), (u32::MAX, "t".to_string()));
    assert_eq!(split_key("+:t"), (u32::MAX, "t".to_string()));
    assert_eq!(split_key("-1:t"), (u32::MAX, "t".to_string()));
    assert_eq!(split_key("4294967296:t"), (u32::MAX, "t".to_string()));
    assert_eq!(split_key("+5:t"), (5, "t".to_string()));
    assert_eq!(split_key("007:t"), (7, "t".to_string()));
    for text in ["0", "12", "+3", "", "+", "-2", "4294967295", "4294967296", "1x"] {
        let want: u32 = text.parse().unwrap_or(u32::MAX);
        assert_eq!(split_key(&format!("{text}:t")).0, want, "{text}");
    }
}

#[test]
fn probes_have_names() {
    assert_eq!(tensor_name(Probe::GdnXn), "gdn_xn");
    assert_eq!(tensor_name(Probe::GdnSsmOutRaw), "gdn_ssm_out_raw");
    assert_eq!(tensor_name(Probe::FfnDownOut), "ffn_down_out");
    assert_eq!(tensor_name(Probe::ResidPost), "resid_post");
}

#[test]
fn rows_are_contiguous() {
    let t = CapturedTensor { rows: 2, cols: 3, values: vec![1, 2, 3, 4, 5, 6] };
    assert_eq!(t.row(0), &[1, 2, 3]);
    assert_eq!(t.row(1), &[4, 5, 6]);
}

#[test]
fn recording_again_replaces() {
    let mut c = LayerCapture::new();
    c.record(0, "a", 1, 2, vec![1, 2]);
    c.record(1, "a", 1, 1, vec![9]);
    c.record(0, "a", 2, 1, vec![3, 4]);
    let dump = c.dump();
    assert_eq!(dump.tensors.len(), 2);
    assert_eq!(dump.tensors[0].key, "0:a");
    assert_eq!(dump.tensors[0].tensor, CapturedTensor { rows: 2, cols: 1, values: vec![3, 4] });
    assert_eq!(dump.tensors[1].key, "1:a");
}

#[test]
fn dumps_depend_on_what_was_recorded() {
    let mut a = LayerCapture::new();
    let mut b = LayerCapture::new();
    for layer in [3u32, 20, 0, 11] {
        a.record(layer, "x", 1, 1, vec![layer]);
        a.record(layer, "w", 1, 1, vec![layer]);
    }
    for layer in [11u32, 0, 20, 3] {
        b.record(layer, "w", 1, 1, vec![7]);
        b.record(layer, "x", 1, 1, vec![layer]);
        b.record(layer, "w", 1, 1, vec![layer]);
    }
    assert_eq!(a.dump(), b.dump());
    let keys: Vec<String> = a.dump().tensors.iter().map(|e| e.key.clone()).collect();
    let mut sorted = keys.clone();
    sorted.sort();
    assert_eq!(keys, sorted);
}

#[test]
fn only_matching_tensors_are_compared() {
    let mut a = LayerCapture::new();
    a.record(0, "x", 1, 1, vec![1]);
    a.record(0, "y", 1, 2, vec![1, 2]);
    a.record(1, "x", 1, 1, vec![1]);
    let mut b = LayerCapture::new();
    b.record(1, "x", 1, 1, vec![5]);
    b.record(0, "y", 2, 1, vec![1, 2]);
    b.record(0, "x", 1, 1, vec![4]);
    assert_eq!(comparable_pairs(a.dump(), b.dump()), vec![(0, 0), (2, 2)]);
}
