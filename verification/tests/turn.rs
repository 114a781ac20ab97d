//! One conversation turn.

use rocml::snapshot::turn::{
    stable_boundary_tokens, stop_matched, AfterRewind, Capture, HitSource, Turn, TurnStart,
};
use rocml::snapshot::SnapshotTier;

#[test]
fn no_stop_strings_never_matches() {
    assert!(!stop_matched("hello world", &[]));
}

#[test]
fn matches_substring_anywhere_in_accumulated_text() {
    let stops = vec!["STOP".to_string()];
    assert!(!stop_matched("hello wor", &stops));
    assert!(stop_matched("hello world STOP here", &stops));
}

#[test]
fn empty_stop_string_is_ignored() {
    let stops = vec![String::new(), "END".to_string()];
    assert!(!stop_matched("anything at all", &stops));
    assert!(stop_matched("reached the END now", &stops));
}

#[test]
fn matches_first_of_several_stop_strings() {
    let stops = vec!["```".to_string(), "\n\n".to_string()];
    assert!(stop_matched("some code```", &stops));
    assert!(stop_matched("line one\n\nline two", &stops));
    assert!(!stop_matched("no stop here", &stops));
}

#[test]
fn stop_strings_match_beyond_ascii() {
    let stops = vec!["für".to_string()];
    assert!(stop_matched("ein Text für alle", &stops));
    assert!(!stop_matched("ein Text fur alle", &stops));
}

#[test]
fn boundary_must_be_a_token_prefix() {
    assert_eq!(stable_boundary_tokens(&[1, 2], &[1, 2, 3]), Some(2));
    assert_eq!(stable_boundary_tokens(&[], &[1]), Some(0));
    assert_eq!(stable_boundary_tokens(&[1, 3], &[1, 2, 3]), None);
    assert_eq!(stable_boundary_tokens(&[1, 2, 3], &[1, 2]), None);
}

#[test]
fn dense_models_and_missing_stores_reuse_nothing() {
    for (hybrid, store) in [(false, true), (true, false), (false, false)] {
        let (turn, start) = Turn::begin(hybrid, store, Some(4));
        assert_eq!(start, TurnStart::Reset);
        let save = turn.at_boundary(4, 10, true, true);
        assert!(!save.rewind_point);
        assert_eq!(save.capture, Capture::Nothing);
        assert!(turn.at_end(&[1], &[2], 2, true).is_none());
        assert_eq!(turn.reused_prefix(), 0);
        assert_eq!(turn.hit_source(), None);
    }
}

#[test]
fn rewind_points_come_before_the_store() {
    let (mut turn, start) = Turn::begin(true, true, None);
    assert_eq!(start, TurnStart::TryRewind);
    assert_eq!(turn.rewound(Some(7)), AfterRewind::Prefill);
    assert_eq!(turn.reused_prefix(), 7);
    assert_eq!(turn.hit_source(), Some(HitSource::Gpu));

    let (mut turn, _) = Turn::begin(true, true, None);
    assert_eq!(turn.rewound(None), AfterRewind::ResetAndLookup);
    turn.restored(None);
    assert_eq!(turn.hit_source(), None);
    turn.restored(Some((5, SnapshotTier::Ram)));
    assert_eq!(turn.reused_prefix(), 5);
    assert_eq!(turn.hit_source(), Some(HitSource::Ram));
    turn.restored(Some((6, SnapshotTier::Disk)));
    assert_eq!(turn.hit_source(), Some(HitSource::Disk));
}

#[test]
fn tier_names() {
    assert_eq!(HitSource::Gpu.as_str(), "gpu");
    assert_eq!(HitSource::Ram.as_str(), "ram");
    assert_eq!(HitSource::Disk.as_str(), "disk");
}

#[test]
fn boundaries_save_what_the_store_keeps() {
    let (turn, _) = Turn::begin(true, true, Some(8));
    let stable = turn.at_boundary(8, 20, true, true);
    assert!(stable.rewind_point);
    assert_eq!(stable.capture, Capture::Pinned);
    assert_eq!(turn.at_boundary(8, 20, true, false).capture, Capture::Nothing);
    let plain = turn.at_boundary(12, 20, true, true);
    assert!(!plain.rewind_point);
    assert_eq!(plain.capture, Capture::Plain);
    assert_eq!(turn.at_boundary(12, 20, false, true).capture, Capture::Nothing);
    // The prompt's end is no boundary of its own.
    assert_eq!(turn.at_boundary(20, 20, true, true).capture, Capture::Nothing);
}

#[test]
fn end_of_turn_saves_what_the_cache_holds() {
    let (turn, _) = Turn::begin(true, true, None);
    // A stop string ended the turn one token before the cache has it.
    let save = turn.at_end(&[1, 2], &[3, 4], 3, true).unwrap();
    assert_eq!(save.tokens, vec![1, 2, 3]);
    assert_eq!(save.capture, Capture::Pinned);
    let (turn, _) = Turn::begin(true, true, Some(1));
    let save = turn.at_end(&[1, 2], &[3, 4], 9, true).unwrap();
    assert_eq!(save.tokens, vec![1, 2, 3, 4]);
    assert_eq!(save.capture, Capture::Nothing);
}
