use spire_achievements_tracker::achievement_list::{
    Achievements, ComparisonResult, Cue, ResourceUnavailable,
};

fn snapshot(ids: &[&str]) -> Achievements {
    Achievements::from_identifiers(ids.iter().map(|id| id.to_string()).collect())
}

fn sorted(snapshot: &Achievements) -> Vec<String> {
    let mut ids = snapshot.identifiers();
    ids.sort();
    ids
}

#[test]
fn test_serialize_default_list() {
    let default_list = Achievements::default();
    let serialized = serde_json::to_string(&default_list.identifiers()).unwrap();
    assert_eq!(serialized, "[]");
}

#[test]
fn progress_is_a_strict_superset() {
    let previous = snapshot(&["CHAMP"]);
    let next = snapshot(&["CHAMP", "RUBY"]);
    assert_eq!(previous.compare(&next), ComparisonResult::Progressed);
}

#[test]
fn reset_to_nothing_is_a_regression() {
    let previous = snapshot(&["CHAMP", "RUBY"]);
    let next = snapshot(&[]);
    assert_eq!(previous.compare(&next), ComparisonResult::Regressed);
}

#[test]
fn losing_one_and_gaining_another_diverges() {
    let previous = snapshot(&["CHAMP"]);
    let next = snapshot(&["RUBY"]);
    assert_eq!(previous.compare(&next), ComparisonResult::Diverged);
}

#[test]
fn equal_sets_are_unchanged() {
    let previous = snapshot(&["CHAMP"]);
    let next = snapshot(&["CHAMP"]);
    assert_eq!(previous.compare(&next), ComparisonResult::Unchanged);
}

#[test]
fn order_and_repetition_do_not_matter() {
    let previous = snapshot(&["CHAMP", "RUBY", "CHAMP"]);
    let next = snapshot(&["RUBY", "CHAMP"]);
    assert_eq!(previous.len(), 2);
    assert_eq!(previous.compare(&next), ComparisonResult::Unchanged);
    assert_eq!(next.compare(&previous), ComparisonResult::Unchanged);
}

#[test]
fn a_snapshot_compared_with_itself_is_unchanged() {
    for ids in [&[][..], &["CHAMP"][..], &["CHAMP", "RUBY", "NEON"][..]] {
        let a = snapshot(ids);
        assert_eq!(a.compare(&a), ComparisonResult::Unchanged);
    }
}

#[test]
fn swapping_the_snapshots_swaps_progress_and_regression() {
    let sets: [&[&str]; 5] =
        [&[], &["CHAMP"], &["RUBY"], &["CHAMP", "RUBY"], &["CHAMP", "RUBY", "NEON"]];
    for a in sets {
        for b in sets {
            let forward = snapshot(a).compare(&snapshot(b));
            let backward = snapshot(b).compare(&snapshot(a));
            let expected = match forward {
                ComparisonResult::Unchanged => ComparisonResult::Unchanged,
                ComparisonResult::Progressed => ComparisonResult::Regressed,
                ComparisonResult::Regressed => ComparisonResult::Progressed,
                ComparisonResult::Diverged => ComparisonResult::Diverged,
            };
            assert_eq!(backward, expected);
        }
    }
}

#[test]
fn each_result_says_how_the_sets_lie() {
    let sets: [&[&str]; 5] =
        [&[], &["CHAMP"], &["RUBY"], &["CHAMP", "RUBY"], &["CHAMP", "RUBY", "NEON"]];
    for a in sets {
        for b in sets {
            let a_in_b = a.iter().all(|id| b.contains(id));
            let b_in_a = b.iter().all(|id| a.contains(id));
            let expected = match (a_in_b, b_in_a) {
                (true, true) => ComparisonResult::Unchanged,
                (true, false) => ComparisonResult::Progressed,
                (false, true) => ComparisonResult::Regressed,
                (false, false) => ComparisonResult::Diverged,
            };
            assert_eq!(snapshot(a).compare(&snapshot(b)), expected);
            assert_eq!(snapshot(a).is_subset(&snapshot(b)), a_in_b);
        }
    }
}

#[test]
fn cues_follow_the_result() {
    assert_eq!(ComparisonResult::Unchanged.cue(), Cue::Silent);
    assert_eq!(ComparisonResult::Progressed.cue(), Cue::Unlock);
    assert_eq!(ComparisonResult::Regressed.cue(), Cue::Reset);
    assert_eq!(ComparisonResult::Diverged.cue(), Cue::Reset);
}

#[test]
fn empty_identifiers_are_left_out() {
    let a = snapshot(&["", "CHAMP", ""]);
    assert_eq!(a.len(), 1);
    assert!(!a.contains(""));
    assert!(a.contains("CHAMP"));
    assert_eq!(sorted(&a), vec!["CHAMP".to_string()]);
}

#[test]
fn the_empty_snapshot_is_empty() {
    let a = Achievements::new();
    assert!(a.is_empty());
    assert_eq!(a.len(), 0);
    assert!(!a.contains("CHAMP"));
    assert!(a.identifiers().is_empty());
    assert!(!snapshot(&["CHAMP"]).is_empty());
}

#[test]
fn membership_is_exact() {
    let a = snapshot(&["CHAMP", "RUBY_PLUS"]);
    assert!(a.contains("CHAMP"));
    assert!(a.contains("RUBY_PLUS"));
    assert!(!a.contains("RUBY"));
    assert!(!a.contains("champ"));
    assert!(!a.contains("CHAMP "));
}

#[test]
fn parsing_a_resource_gives_its_keys() {
    let a = Achievements::parse("\"ADRENALINE\": \"true\"\n# comment\n\"SHAPES\": \"true\"");
    assert_eq!(sorted(&a), vec!["ADRENALINE".to_string(), "SHAPES".to_string()]);
}

#[test]
fn parsing_the_same_text_again_changes_nothing() {
    let text = "{\n  \"CHAMP\": \"true\",\n  \"RUBY\": \"true\"\n}";
    let first = Achievements::parse(text);
    let second = Achievements::parse(text);
    assert_eq!(first.compare(&second), ComparisonResult::Unchanged);
    assert_eq!(sorted(&first), sorted(&second));
}

#[test]
fn repeated_keys_count_once() {
    let a = Achievements::parse("\"CHAMP\": \"true\"\n\"CHAMP\": \"true\"\nCHAMP: yes");
    assert_eq!(a.len(), 1);
    assert!(a.contains("CHAMP"));
}

#[test]
fn a_missing_resource_is_unavailable() {
    assert_eq!(Achievements::from_resource(None).err(), Some(ResourceUnavailable));
}

#[test]
fn bytes_that_are_no_text_are_unavailable() {
    let bytes: [u8; 4] = [0x22, 0xff, 0xfe, 0x22];
    assert_eq!(Achievements::from_resource(Some(&bytes)).err(), Some(ResourceUnavailable));
    let cut_short: [u8; 2] = [0x41, 0xc3];
    assert_eq!(Achievements::from_resource(Some(&cut_short)).err(), Some(ResourceUnavailable));
}

#[test]
fn bytes_that_are_text_are_parsed() {
    let a = Achievements::from_resource(Some("\"CHAMP\": \"true\"\n".as_bytes())).unwrap();
    assert_eq!(sorted(&a), vec!["CHAMP".to_string()]);
    let empty = Achievements::from_resource(Some(&[])).unwrap();
    assert!(empty.is_empty());
    let accented = Achievements::from_resource(Some("\"CAF\u{e9}\": \"true\"".as_bytes())).unwrap();
    assert!(accented.contains("CAF\u{e9}"));
}
