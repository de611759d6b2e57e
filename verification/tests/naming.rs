//! Episode extraction and canonical name formatting.

use strikeout::error::Error;
use strikeout::transfer::{extract_episode, find_episode_num, find_versioned_episode, trans, Name};

#[test]
fn trans_1() {
    let input = "[Munou na Nana][06][BIG5][1080P].mp4";
    assert_eq!(trans(input).unwrap(), "S01E06.mp4".to_owned());
}

#[test]
fn trans_2() {
    let input = "[SweetSub&LoliHouse] Akudama Drive - 05 [WebRip 1080p HEVC-10bit AAC ASSx2].mkv";
    assert_eq!(trans(input).unwrap(), "S01E05.mkv".to_owned());
}

#[test]
fn trans_3() {
    let input = "1.text";
    assert_eq!(trans(input).unwrap(), "S01E01.text".to_owned());
}

#[test]
fn trans_4() {
    let input = "[SweetSub&LoliHouse] Akudama Drive - 05v2 [WebRip 1080p HEVC-10bit AAC ASSx2].mkv";
    assert_eq!(trans(input).unwrap(), "S01E05.mkv".to_owned());
}

#[test]
fn trans_with_parent_title() {
    let input = "Akudama Drive/[SweetSub&LoliHouse] Akudama Drive - 05 [WebRip 1080p HEVC-10bit AAC ASSx2].mkv";
    assert_eq!(trans(input).unwrap(), "Akudama Drive 5.mkv".to_owned());
}

#[test]
fn trans_no_episode() {
    assert_eq!(trans("sss.mkv"), Err(Error::EpisodeNotFound));
}

#[test]
fn trans_no_extension() {
    assert_eq!(trans("[x][08]").unwrap(), "S01E08".to_owned());
}

#[test]
fn trans_fullwidth_brackets() {
    assert_eq!(trans("\u{3010}Nana\u{3011}\u{3010}12\u{3011}.mkv").unwrap(), "S01E12.mkv");
}

#[test]
fn generic_takes_leading_digits_ignores_version() {
    assert_eq!(find_episode_num("[abc][07v2][x]"), Ok(7));
    assert_eq!(find_episode_num("abc 013V4 xyz"), Ok(13));
}

#[test]
fn generic_rejects_mixed_tokens() {
    assert_eq!(find_episode_num("[1080P][HEVC]"), Err(Error::EpisodeNotFound));
    assert_eq!(find_episode_num("v2"), Err(Error::EpisodeNotFound));
    assert_eq!(find_episode_num("07v"), Err(Error::EpisodeNotFound));
}

#[test]
fn generic_skips_oversized_numbers() {
    // A digit run too large for an episode descriptor is not an episode
    // token; a later fitting token still wins.
    assert_eq!(find_episode_num("[70000]"), Err(Error::EpisodeNotFound));
    assert_eq!(find_episode_num("[70000][05]"), Ok(5));
    assert_eq!(find_episode_num("[65535]"), Ok(65535));
}

#[test]
fn dedicated_agrees_with_generic() {
    // Consistency across rules: whenever the dedicated versioned-convention
    // extractor succeeds, the generic one returns the same episode.
    assert_eq!(find_versioned_episode("[a] 05v2 [b]"), Ok(5));
    assert_eq!(find_episode_num("[a] 05v2 [b]"), Ok(5));
    // When the dedicated extractor fails, the chain still extracts from
    // any bare digit token.
    assert_eq!(find_versioned_episode("[a] 05 [b]"), Err(Error::EpisodeNotFound));
    assert_eq!(extract_episode("[a] 05 [b]"), Ok(5));
    assert_eq!(extract_episode("[a] 05v2 [b]"), Ok(5));
}

#[test]
fn format_without_title_pads_to_two() {
    assert_eq!(Name::new(0, 1).format(None), "S01E00");
    assert_eq!(Name::new(6, 1).format(None), "S01E06");
    assert_eq!(Name::new(100, 1).format(None), "S01E100");
    assert_eq!(Name::new(7, 12).format(None), "S12E07");
}

#[test]
fn format_with_title_is_unpadded() {
    assert_eq!(Name::new(5, 1).format(Some("Akudama Drive")), "Akudama Drive 5");
    assert_eq!(Name::new(205, 1).format(Some("T")), "T 205");
}

#[test]
fn format_is_deterministic() {
    let a = Name::new(42, 1).format(Some("Title"));
    let b = Name::new(42, 1).format(Some("Title"));
    assert_eq!(a, b);
    let c = Name::new(42, 1).format(None);
    let d = Name::new(42, 1).format(None);
    assert_eq!(c, d);
}
