use bdsp_ug_search::context::StoryFlag;
use bdsp_ug_search::seed::{parse_seed, parse_seed_word, SeedError};
use bdsp_ug_search::statue::{StatueConfig, StatueEntry, StatueError, MAX_STATUES};
use bdsp_ug_search::text::load_string_list;

#[test]
fn remove_last_on_empty_is_noop() {
    let mut c = StatueConfig::new();
    c.remove_last();
    assert_eq!(c.len(), 0);
}

#[test]
fn add_and_remove_last() {
    let mut c = StatueConfig::default();
    assert_eq!(c.add(StatueEntry { species: 1, rare: false }), Ok(()));
    assert_eq!(c.add(StatueEntry { species: 2, rare: true }), Ok(()));
    assert_eq!(c.len(), 2);
    assert_eq!(c.get(1), StatueEntry { species: 2, rare: true });
    c.remove_last();
    assert_eq!(c.len(), 1);
    assert_eq!(c.get(0), StatueEntry { species: 1, rare: false });
}

#[test]
fn add_beyond_capacity_fails_unchanged() {
    let mut c = StatueConfig::new();
    for i in 0..MAX_STATUES {
        assert_eq!(c.add(StatueEntry { species: i as u16, rare: false }), Ok(()));
    }
    assert_eq!(c.add(StatueEntry { species: 999, rare: true }), Err(StatueError::Full));
    assert_eq!(c.len(), MAX_STATUES);
    for i in 0..MAX_STATUES {
        assert_eq!(c.get(i), StatueEntry { species: i as u16, rare: false });
    }
}

#[test]
fn seed_words_parse_as_hex() {
    assert_eq!(parse_seed_word("0"), Some(0));
    assert_eq!(parse_seed_word("ff"), Some(255));
    assert_eq!(parse_seed_word("DeadBeef"), Some(0xdead_beef));
    assert_eq!(parse_seed_word("+10"), Some(16));
    assert_eq!(parse_seed_word("FFFFFFFF"), Some(u32::MAX));
    assert_eq!(parse_seed_word("000000001"), Some(1));
}

#[test]
fn bad_seed_words_are_rejected() {
    assert_eq!(parse_seed_word(""), None);
    assert_eq!(parse_seed_word("+"), None);
    assert_eq!(parse_seed_word("g"), None);
    assert_eq!(parse_seed_word(" 1"), None);
    assert_eq!(parse_seed_word("1 "), None);
    assert_eq!(parse_seed_word("-1"), None);
    assert_eq!(parse_seed_word("100000000"), None);
}

#[test]
fn seed_reports_first_bad_word() {
    let ok = parse_seed("1", "2", "3", "4").unwrap();
    assert_eq!(ok.state(), [1, 2, 3, 4]);
    assert_eq!(parse_seed("x", "y", "3", "4"), Err(SeedError::S0));
    assert_eq!(parse_seed("1", "y", "z", "4"), Err(SeedError::S1));
    assert_eq!(parse_seed("1", "2", "", "4"), Err(SeedError::S2));
    assert_eq!(parse_seed("1", "2", "3", "123456789"), Err(SeedError::S3));
    assert_eq!(SeedError::S2.message(), "Failed to parse s2");
}

#[test]
fn string_list_splits_lines() {
    assert_eq!(load_string_list("a\r\nbc\nd"), vec!["a", "bc", "d"]);
    assert_eq!(load_string_list("x\n"), vec!["x", ""]);
    assert_eq!(load_string_list(""), vec![""]);
    assert_eq!(load_string_list("\r\n\r"), vec!["", ""]);
}

#[test]
fn story_flag_names_and_tiers() {
    assert_eq!(StoryFlag::SevenBadges.get_str(), "7 Badges");
    assert_eq!(StoryFlag::UndergroundUnlocked.get_str(), "Underground Unlocked");
    assert_eq!(StoryFlag::default(), StoryFlag::NationalDex);
    assert_eq!(StoryFlag::default().tier(), 6);
    assert_eq!(StoryFlag::UndergroundUnlocked.tier(), 1);
}
