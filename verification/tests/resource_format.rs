use spire_achievements_tracker::achievement_list::Achievements;
use spire_achievements_tracker::resource::{
    characters, find_separator, key_bounds, scan, trim_bounds, whitespace,
};

fn keys(text: &str) -> Vec<String> {
    let mut ids = Achievements::parse(text).identifiers();
    ids.sort();
    ids
}

fn strings(ids: &[&str]) -> Vec<String> {
    ids.iter().map(|id| id.to_string()).collect()
}

#[test]
fn lines_that_name_nothing_are_skipped() {
    let text = "{\n\"CHAMP\": \"true\",\nno separator here\n\n# note\n\"RUBY\": \"true\"\n}\n";
    assert_eq!(keys(text), strings(&["CHAMP", "RUBY"]));
}

#[test]
fn interleaved_lines_change_nothing() {
    let plain = "\"CHAMP\": \"true\"\n\"RUBY\": \"true\"";
    let noisy = "junk\n\"CHAMP\": \"true\"\n:\n\n\"RUBY\": \"true\"\nmore:junk";
    assert_eq!(keys(plain), keys(noisy));
    assert_eq!(keys(noisy), strings(&["CHAMP", "RUBY"]));
}

#[test]
fn the_value_is_not_looked_at() {
    assert_eq!(keys("\"CHAMP\": \"false\""), strings(&["CHAMP"]));
    assert_eq!(keys("\"CHAMP\": "), strings(&["CHAMP"]));
    assert_eq!(keys("\"CHAMP\": : : "), strings(&["CHAMP"]));
}

#[test]
fn only_the_first_separator_counts() {
    assert_eq!(keys("A: B: C"), strings(&["A"]));
    assert_eq!(keys("A:B: C"), strings(&["A:B"]));
}

#[test]
fn a_colon_without_a_space_is_no_separator() {
    assert_eq!(keys("\"CHAMP\":\"true\""), strings(&[]));
    assert_eq!(keys("CHAMP:"), strings(&[]));
    assert_eq!(keys("CHAMP :"), strings(&[]));
}

#[test]
fn white_space_around_the_key_is_dropped() {
    assert_eq!(keys("   \"CHAMP\"  : \"true\""), strings(&["CHAMP"]));
    assert_eq!(keys("\t CHAMP \t: x"), strings(&["CHAMP"]));
    assert_eq!(keys("\u{a0}\u{3000}CHAMP\u{2003}: x"), strings(&["CHAMP"]));
}

#[test]
fn white_space_inside_the_quotes_stays() {
    assert_eq!(keys("\" CHAMP \": x"), strings(&[" CHAMP "]));
    assert_eq!(keys("THE CHAMP: x"), strings(&["THE CHAMP"]));
}

#[test]
fn one_pair_of_quotes_is_dropped() {
    assert_eq!(keys("\"\"CHAMP\"\": x"), strings(&["\"CHAMP\""]));
    assert_eq!(keys("\"CHAMP: x"), strings(&["\"CHAMP"]));
    assert_eq!(keys("CHAMP\": x"), strings(&["CHAMP\""]));
    assert_eq!(keys("\": x"), strings(&["\""]));
}

#[test]
fn an_empty_key_names_nothing() {
    assert_eq!(keys(": x"), strings(&[]));
    assert_eq!(keys("   : x"), strings(&[]));
    assert_eq!(keys("\"\": x"), strings(&[]));
    assert_eq!(keys(" \"\" : x"), strings(&[]));
}

#[test]
fn line_endings_with_carriage_returns_are_read() {
    assert_eq!(keys("\"CHAMP\": \"true\"\r\n\"RUBY\": \"true\"\r\n"), strings(&["CHAMP", "RUBY"]));
    assert_eq!(keys("CHAMP\r\n: x"), strings(&[]));
}

#[test]
fn an_empty_text_names_nothing() {
    assert_eq!(keys(""), strings(&[]));
    assert_eq!(keys("\n\n\n"), strings(&[]));
}

#[test]
fn the_last_line_needs_no_line_feed() {
    assert_eq!(keys("A: 1\nB: 2"), strings(&["A", "B"]));
    assert_eq!(keys("A: 1\nB: 2\n"), strings(&["A", "B"]));
}

#[test]
fn scan_finds_what_the_lines_name() {
    let mut found = scan("B: 1\nskip\nA: 2\nB: 3");
    found.sort();
    found.dedup();
    assert_eq!(found, strings(&["A", "B"]));
    assert!(scan("skip\n\n:").is_empty());
}

#[test]
fn keys_outside_ascii_are_kept() {
    assert_eq!(keys("\"\u{c9}MERAUDE\": \"true\"\n\u{65e5}\u{672c}: x"), strings(&[
        "\u{c9}MERAUDE",
        "\u{65e5}\u{672c}",
    ]));
}

#[test]
fn characters_are_those_of_the_text() {
    assert_eq!(characters("a\u{e9}\n"), vec!['a', '\u{e9}', '\n']);
    assert_eq!(characters(""), Vec::<char>::new());
}

#[test]
fn the_first_separator_is_found() {
    let chars = characters("ab: c: d");
    assert_eq!(find_separator(&chars, 0, chars.len()), Some(2));
    assert_eq!(find_separator(&chars, 3, chars.len()), Some(5));
    assert_eq!(find_separator(&chars, 0, 3), None);
    assert_eq!(find_separator(&chars, 0, 4), Some(2));
    assert_eq!(find_separator(&chars, 6, chars.len()), None);
    assert_eq!(find_separator(&chars, 8, 8), None);
}

#[test]
fn trimming_matches_the_standard_library() {
    let texts =
        ["", " ", "  a  ", "\t\u{a0}b c\u{2028}\n", "abc", " \u{85}x", "\u{1680}", "x\u{200b}"];
    for text in texts {
        let chars = characters(text);
        let (from, to) = trim_bounds(&chars, 0, chars.len());
        let trimmed: String = chars[from..to].iter().collect();
        assert_eq!(trimmed, text.trim());
    }
}

#[test]
fn white_space_is_that_of_unicode() {
    let mut c = '\0';
    loop {
        assert_eq!(whitespace(c), c.is_whitespace());
        if c == char::MAX {
            break;
        }
        c = char::from_u32(c as u32 + 1).unwrap_or('\u{e000}');
    }
}

#[test]
fn key_bounds_point_into_the_line() {
    let chars = characters("x\n  \"CHAMP\" : yes\n");
    assert_eq!(key_bounds(&chars, 2, 17), Some((5, 10)));
    assert_eq!(key_bounds(&chars, 0, 1), None);
    assert_eq!(key_bounds(&chars, 18, 18), None);
}

/// The keys of `text` by the standard library's own line splitting, trimming
/// and prefix stripping.
fn keys_by_std(text: &str) -> Vec<String> {
    let mut ids: Vec<String> = Vec::new();
    for line in text.lines() {
        if let Some((before, _)) = line.split_once(": ") {
            let trimmed = before.trim();
            let inner = if trimmed.chars().count() >= 2 {
                trimmed.strip_prefix('"').and_then(|rest| rest.strip_suffix('"'))
            } else {
                None
            };
            let id = inner.unwrap_or(trimmed);
            if !id.is_empty() {
                ids.push(id.to_string());
            }
        }
    }
    ids.sort();
    ids.dedup();
    ids
}

#[test]
fn parsing_agrees_with_the_standard_library_on_many_texts() {
    let alphabet = ['"', ':', ' ', '\n', '\r', '\t', 'A', 'B', '\u{a0}', '\u{e9}'];
    let mut state: u64 = 0x2545_f491_4f6c_dd1d;
    for _ in 0..4000 {
        let mut text = String::new();
        state ^= state << 13;
        state ^= state >> 7;
        state ^= state << 17;
        let len = (state % 24) as usize;
        for _ in 0..len {
            state ^= state << 13;
            state ^= state >> 7;
            state ^= state << 17;
            text.push(alphabet[(state % alphabet.len() as u64) as usize]);
        }
        assert_eq!(keys(&text), keys_by_std(&text), "text: {text:?}");
    }
}
