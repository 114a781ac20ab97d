//! Hashes, the snapshot encoding and its frame.

use half::f16;
use rocml::snapshot::codec::{decode, encode, Writer};
use rocml::snapshot::frame::{frame, unframe, HEADER_LEN};
use rocml::snapshot::hash::{checksum_bytes, ChainHash, FNV_OFFSET};
use rocml::snapshot::types::{AttnLayerBytes, GdnLayerBytes, SnapshotData};

fn f32s(values: &[f32]) -> Vec<u32> {
    values.iter().map(|v| v.to_bits()).collect()
}

fn f16s(values: &[f32]) -> Vec<u16> {
    values.iter().map(|v| f16::from_f32(*v).to_bits()).collect()
}

fn sample() -> SnapshotData {
    SnapshotData {
        position: 3,
        token_ids: vec![10, 20, 30],
        gdn: vec![
            None,
            Some(GdnLayerBytes { conv_state: f32s(&[1.0, 2.0, 3.0]), state: f32s(&[4.0, 5.0]) }),
        ],
        attn: vec![
            Some(AttnLayerBytes::DenseF16 { k: f16s(&[1.5, -2.5]), v: f16s(&[0.0]) }),
            Some(AttnLayerBytes::Mixed {
                sink_k: f16s(&[1.0]),
                sink_v: f16s(&[2.0]),
                window_k: f16s(&[3.0]),
                window_v: f16s(&[4.0]),
                bulk_k_codes: vec![-1, 2, -3],
                bulk_k_scales: f32s(&[0.1, 0.2]),
                bulk_v_codes: vec![250, 5],
                bulk_v_scales: f32s(&[0.3]),
                window_base: 160,
                v_bits: 8,
            }),
            None,
        ],
    }
}

#[test]
fn empty_hash_is_fnv_offset_basis() {
    assert_eq!(ChainHash::new().value(), FNV_OFFSET);
}

#[test]
fn resuming_from_a_checkpoint_matches_hashing_from_scratch() {
    let tokens: Vec<u32> = (0..500).map(|i| i * 7 + 3).collect();
    let checkpoint = ChainHash::new().fold_all(&tokens[..200]);
    let resumed = checkpoint.fold_all(&tokens[200..350]).value();
    let from_scratch = ChainHash::of(&tokens[..350]);
    assert_eq!(resumed, from_scratch);
}

#[test]
fn different_token_sequences_hash_differently() {
    assert_ne!(ChainHash::of(&[1, 2, 3]), ChainHash::of(&[1, 2, 4]));
    assert_ne!(ChainHash::of(&[1, 2, 3]), ChainHash::of(&[1, 2]));
}

#[test]
fn same_prefix_different_length_never_collides_trivially() {
    // A prefix must never hash equal to a longer prefix that starts with it.
    let base = ChainHash::of(&[10, 20, 30]);
    let extended = ChainHash::of(&[10, 20, 30, 0]);
    assert_ne!(base, extended);
}

#[test]
fn checksum_detects_a_single_flipped_bit() {
    let data = b"snapshot payload bytes".to_vec();
    let good = checksum_bytes(&data);
    let mut corrupted = data.clone();
    corrupted[5] ^= 0x01;
    assert_ne!(good, checksum_bytes(&corrupted));
}

#[test]
fn checksum_of_known_bytes() {
    assert_eq!(checksum_bytes(b""), 0xcbf2_9ce4_8422_2325);
    assert_eq!(checksum_bytes(b"a"), 0xaf63_dc4c_8601_ec8c);
    assert_eq!(checksum_bytes(b"foobar"), 0x8594_4171_f739_67e8);
    // A token is folded as its four bytes, least significant first.
    assert_eq!(ChainHash::of(&[1]), checksum_bytes(&[1, 0, 0, 0]));
}

#[test]
fn roundtrips_exactly() {
    let original = sample();
    let bytes = encode(&original);
    let decoded = decode(&bytes).expect("decode failed");
    assert_eq!(original, decoded);
}

#[test]
fn truncated_bytes_error_instead_of_panicking() {
    let bytes = encode(&sample());
    for cut in [0, 1, 4, bytes.len() / 2, bytes.len() - 1] {
        assert!(decode(&bytes[..cut]).is_err());
    }
}

#[test]
fn invalid_tag_is_an_error() {
    let mut bytes = encode(&sample());
    // The first layer-kind tag inside the gdn section: u32 position,
    // token_ids header and content, gdn count, then the tag.
    let tag_offset = 4 + 8 + 3 * 4 + 8;
    bytes[tag_offset] = 0xFF;
    assert!(decode(&bytes).is_err());
}

#[test]
fn encoding_starts_with_position_and_tokens() {
    let bytes = encode(&sample());
    assert_eq!(&bytes[..4], &[3, 0, 0, 0]);
    assert_eq!(&bytes[4..12], &[3, 0, 0, 0, 0, 0, 0, 0]);
    assert_eq!(&bytes[12..16], &[10, 0, 0, 0]);
}

#[test]
fn single_precision_planes_round_trip() {
    let data = SnapshotData {
        position: 1,
        token_ids: vec![7],
        gdn: vec![None],
        attn: vec![Some(AttnLayerBytes::DenseF32 { k: f32s(&[1.0, -2.0]), v: f32s(&[3.5]) })],
    };
    assert_eq!(decode(&encode(&data)).unwrap(), data);
}

#[test]
fn payload_sizes_count_elements() {
    let data = sample();
    // Token ids; five single-precision values; three halves; then four
    // halves, three scales and five codes.
    assert_eq!(data.byte_size(), 3 * 4 + 5 * 4 + 3 * 2 + (4 * 2 + 3 * 4 + 5));
}

#[test]
fn frame_round_trips_and_detects_damage() {
    let payload = encode(&sample());
    let framed = frame(&payload);
    assert_eq!(framed.len(), HEADER_LEN + payload.len());
    assert_eq!(unframe(&framed), Some(&payload[..]));
    for i in 0..framed.len() {
        let mut damaged = framed.clone();
        damaged[i] ^= 0x40;
        assert_eq!(unframe(&damaged), None, "byte {i}");
    }
    for cut in [0, HEADER_LEN - 1, HEADER_LEN, framed.len() - 1] {
        assert_eq!(unframe(&framed[..cut]), None);
    }
}

#[test]
fn word_lists_take_a_count_and_their_words() {
    let mut w = Writer::new();
    w.u32_slice(&[1, 0x0403_0201]);
    assert_eq!(
        w.into_bytes(),
        vec![2, 0, 0, 0, 0, 0, 0, 0, 1, 0, 0, 0, 1, 2, 3, 4]
    );
}

#[test]
fn every_truncation_is_refused() {
    let bytes = encode(&sample());
    for cut in 0..bytes.len() {
        assert!(decode(&bytes[..cut]).is_err(), "cut at {cut}");
    }
    // A count that promises more words than there are bytes.
    let mut long = bytes.clone();
    long[4] = 0xFF;
    assert!(decode(&long).is_err());
}
