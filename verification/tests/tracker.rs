use spire_achievements_tracker::achievement_list::{ComparisonResult, ResourceUnavailable};
use spire_achievements_tracker::settings::Settings;
use spire_achievements_tracker::tracker::{padding, App};

fn sorted(app: &App) -> Vec<String> {
    let mut ids = app.achievements().identifiers();
    ids.sort();
    ids
}

#[test]
fn the_tracker_starts_with_what_was_read() {
    let app = App::new(Settings::default(), Some("\"CHAMP\": \"true\"".as_bytes()));
    assert_eq!(sorted(&app), vec!["CHAMP".to_string()]);
    assert_eq!(app.settings().row_width, 10);
}

#[test]
fn the_tracker_starts_empty_without_a_resource() {
    let app = App::new(Settings::default(), None);
    assert!(app.achievements().is_empty());
    let garbled = App::new(Settings::default(), Some(&[0xff]));
    assert!(garbled.achievements().is_empty());
}

#[test]
fn a_missing_resource_leaves_the_snapshot_untouched() {
    let text = "\"CHAMP\": \"true\"\n\"RUBY\": \"true\"";
    let mut app = App::new(Settings::default(), Some(text.as_bytes()));
    assert_eq!(app.update(None), Err(ResourceUnavailable));
    assert_eq!(sorted(&app), vec!["CHAMP".to_string(), "RUBY".to_string()]);
    assert_eq!(app.update(Some(&[0xc0, 0x80])), Err(ResourceUnavailable));
    assert_eq!(sorted(&app), vec!["CHAMP".to_string(), "RUBY".to_string()]);
    assert_eq!(app.update(Some(text.as_bytes())), Ok(ComparisonResult::Unchanged));
}

#[test]
fn each_poll_is_compared_with_the_one_before() {
    let mut app = App::new(Settings::default(), None);
    assert_eq!(app.update(Some("CHAMP: 1".as_bytes())), Ok(ComparisonResult::Progressed));
    assert_eq!(app.update(Some("CHAMP: 1".as_bytes())), Ok(ComparisonResult::Unchanged));
    assert_eq!(app.update(Some("CHAMP: 1\nRUBY: 1".as_bytes())), Ok(ComparisonResult::Progressed));
    assert_eq!(app.update(Some("RUBY: 1\nNEON: 1".as_bytes())), Ok(ComparisonResult::Diverged));
    assert_eq!(sorted(&app), vec!["NEON".to_string(), "RUBY".to_string()]);
    assert_eq!(app.update(Some("RUBY: 1".as_bytes())), Ok(ComparisonResult::Regressed));
    assert_eq!(app.update(Some("".as_bytes())), Ok(ComparisonResult::Regressed));
    assert!(app.achievements().is_empty());
    assert_eq!(app.update(Some("".as_bytes())), Ok(ComparisonResult::Unchanged));
}

#[test]
fn the_snapshot_is_replaced_whatever_the_change() {
    let mut app = App::new(Settings::default(), Some("A: 1\nB: 1".as_bytes()));
    assert_eq!(app.update(Some("C: 1".as_bytes())), Ok(ComparisonResult::Diverged));
    assert_eq!(sorted(&app), vec!["C".to_string()]);
    assert_eq!(app.update(Some("C: 1\nD: 1".as_bytes())), Ok(ComparisonResult::Progressed));
    assert_eq!(sorted(&app), vec!["C".to_string(), "D".to_string()]);
}

#[test]
fn padding_is_made_of_spaces() {
    assert_eq!(padding(0), "");
    assert_eq!(padding(1), " ");
    assert_eq!(padding(4), "    ");
    assert_eq!(padding(300), " ".repeat(300));
}

#[test]
fn the_list_shows_every_achievement() {
    let text = "\"CHAMP\": \"true\"\n\"NEON\": \"true\"";
    let app = App::new(Settings::default(), Some(text.as_bytes()));
    let cells = app.cells();
    assert_eq!(cells.len(), 45);
    assert_eq!(cells[0].text, "Adrenaline    ");
    assert!(!cells[0].unlocked);
    assert_eq!(cells[9].text, "The Champion    ");
    assert!(cells[9].unlocked);
    assert_eq!(cells[26].text, "Neon    ");
    assert!(cells[26].unlocked);
    assert_eq!(cells.iter().filter(|cell| cell.unlocked).count(), 2);
}

#[test]
fn rows_end_after_every_row_width_entries() {
    let app = App::new(Settings::default(), None);
    let ends: Vec<usize> =
        app.cells().iter().enumerate().filter(|(_, cell)| cell.ends_row).map(|(i, _)| i).collect();
    assert_eq!(ends, vec![9, 19, 29, 39]);

    let mut settings = Settings::default();
    settings.row_width = 1;
    assert!(App::new(settings, None).cells().iter().all(|cell| cell.ends_row));

    let mut settings = Settings::default();
    settings.row_width = 45;
    let cells = App::new(settings, None).cells();
    assert_eq!(cells.iter().filter(|cell| cell.ends_row).count(), 1);
    assert!(cells[44].ends_row);

    let mut settings = Settings::default();
    settings.row_width = 46;
    assert!(App::new(settings, None).cells().iter().all(|cell| !cell.ends_row));
}

#[test]
fn the_padding_follows_the_settings() {
    let mut settings = Settings::default();
    settings.text_padding = 0;
    settings.achievements[1] = ("AMETHYST".to_string(), "".to_string());
    let cells = App::new(settings, Some("AMETHYST: 1".as_bytes())).cells();
    assert_eq!(cells[0].text, "Adrenaline");
    assert_eq!(cells[1].text, "");
    assert!(cells[1].unlocked);
}

#[test]
fn a_repeated_identifier_shows_its_last_name() {
    let mut settings = Settings::default();
    settings.text_padding = 1;
    settings.achievements[0] = ("CHAMP".to_string(), "Early".to_string());
    let cells = App::new(settings, None).cells();
    assert_eq!(cells[0].text, "The Champion ");
    assert_eq!(cells[9].text, "The Champion ");
}
