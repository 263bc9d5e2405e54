//! What the user configures: where the game keeps its preference files, which
//! save slot to watch, how the list is laid out, and the names to show.
use crate::achievement_list::{
    Achievements, ResourceUnavailable, bytes_of, resource_snapshot, snapshot_view,
};
use vstd::prelude::*;
use vstd::string::*;

verus! {

/// The number of achievements that the list shows.
pub const ACHIEVEMENT_COUNT: usize = 45;

/// The settings of the tracker.
#[derive(Debug)]
pub struct Settings {
    /// The directory in which the game keeps its preference files.
    pub preferences: String,
    /// The save slot whose achievements are watched.
    pub save_slot: usize,
    /// The number of achievements in one row of the list.
    pub row_width: usize,
    /// The size of the font.
    pub font_size: usize,
    /// The number of spaces after each name.
    pub text_padding: usize,
    /// The sound file for lost progress, if one is to be played.
    pub reset_sound: Option<String>,
    /// The sound file for a new achievement, if one is to be played.
    pub achievement_sound: Option<String>,
    /// The achievements in the order of the list, each with the name to show.
    pub achievements: [(String, String); ACHIEVEMENT_COUNT],
}

/// The settings as they are stored: the achievements as a list of lists of
/// strings, of which the first two of each count.
#[derive(Debug)]
pub struct RawSettings {
    /// The directory in which the game keeps its preference files.
    pub preferences: String,
    /// The save slot whose achievements are watched.
    pub save_slot: usize,
    /// The number of achievements in one row of the list.
    pub width: usize,
    /// The size of the font.
    pub font_size: usize,
    /// The number of spaces after each name.
    pub padding: usize,
    /// The sound file for lost progress, if one is to be played.
    pub reset_sound: Option<String>,
    /// The sound file for a new achievement, if one is to be played.
    pub achievement_sound: Option<String>,
    /// The achievements in the order of the list: of each, its identifier,
    /// then its name.
    pub raw_achievements: Vec<Vec<String>>,
}

/// What a value of [`Settings`] holds: its fields, each string as its text.
pub struct SettingsView {
    /// The text of [`Settings::preferences`].
    pub preferences: Seq<char>,
    /// [`Settings::save_slot`].
    pub save_slot: usize,
    /// [`Settings::row_width`].
    pub row_width: usize,
    /// [`Settings::font_size`].
    pub font_size: usize,
    /// [`Settings::text_padding`].
    pub text_padding: usize,
    /// The text of [`Settings::reset_sound`].
    pub reset_sound: Option<Seq<char>>,
    /// The text of [`Settings::achievement_sound`].
    pub achievement_sound: Option<Seq<char>>,
    /// The texts of [`Settings::achievements`]: of each, its identifier, then
    /// its name.
    pub achievements: Seq<(Seq<char>, Seq<char>)>,
}

/// The text of a string that may be absent.
pub open spec fn text_of(s: Option<String>) -> Option<Seq<char>> {
    match s {
        Some(s) => Some(s@),
        None => None,
    }
}

/// The texts of pairs of strings.
pub open spec fn pair_views(pairs: Seq<(String, String)>) -> Seq<(Seq<char>, Seq<char>)> {
    Seq::new(pairs.len(), |i: int| (pairs[i].0@, pairs[i].1@))
}

impl View for Settings {
    type V = SettingsView;

    open spec fn view(&self) -> SettingsView {
        SettingsView {
            preferences: self.preferences@,
            save_slot: self.save_slot,
            row_width: self.row_width,
            font_size: self.font_size,
            text_padding: self.text_padding,
            reset_sound: text_of(self.reset_sound),
            achievement_sound: text_of(self.achievement_sound),
            achievements: pair_views(self.achievements@),
        }
    }
}

/// The achievements of the game and their names, in the order in which the
/// list shows them unless the settings say otherwise.
pub open spec fn default_pairs() -> Seq<(Seq<char>, Seq<char>)> {
    seq![
        ("ADRENALINE"@, "Adrenaline"@),
        ("AMETHYST"@, "Amethyst"@),
        ("AMETHYST_PLUS"@, "Amethyst+"@),
        ("ASCEND_0"@, "Ascend 0"@),
        ("ASCEND_10"@, "Ascend 10"@),
        ("ASCEND_20"@, "Ascend 20"@),
        ("AUTOMATON"@, "The Automaton"@),
        ("BARRICADED"@, "Barricaded"@),
        ("CATALYST"@, "Catalyst"@),
        ("CHAMP"@, "The Champion"@),
        ("COLLECTOR"@, "The Collector"@),
        ("COME_AT_ME"@, "Come At Me"@),
        ("COMMON_SENSE"@, "Common Sense"@),
        ("CROW"@, "The Crow"@),
        ("DONUT"@, "Ooh Donut!"@),
        ("EMERALD"@, "Emerald"@),
        ("EMERALD_PLUS"@, "Emerald+"@),
        ("ETERNAL_ONE"@, "Eternal One"@),
        ("FOCUSED"@, "Focused"@),
        ("GHOST_GUARDIAN"@, "The Ghost"@),
        ("GUARDIAN"@, "The Guardian"@),
        ("IMPERVIOUS"@, "Impervious"@),
        ("INFINITY"@, "Infinity"@),
        ("JAXXED"@, "Jaxxed"@),
        ("LUCKY_DAY"@, "My Lucky Day"@),
        ("MINIMALIST"@, "Minimalist"@),
        ("NEON"@, "Neon"@),
        ("NINJA"@, "Ninja"@),
        ("ONE_RELIC"@, "Who Needs Relics?"@),
        ("PERFECT"@, "Perfect"@),
        ("PLAGUE"@, "Plague"@),
        ("POWERFUL"@, "Powerful"@),
        ("PURITY"@, "Purity"@),
        ("RUBY"@, "Ruby"@),
        ("RUBY_PLUS"@, "Ruby+"@),
        ("SAPPHIRE"@, "Sapphire"@),
        ("SAPPHIRE_PLUS"@, "Sapphire+"@),
        ("SHAPES"@, "The Shapes"@),
        ("SHRUG_IT_OFF"@, "Shrug It Off"@),
        ("SPEED_CLIMBER"@, "Speed Climber"@),
        ("THE_ENDING"@, "The End?"@),
        ("THE_PACT"@, "The Pact"@),
        ("THE_TRANSIENT"@, "The Transient"@),
        ("TIME_EATER"@, "The Time Eater"@),
        ("YOU_ARE_NOTHING"@, "You Are Nothing"@),
    ]
}

/// The settings of a first start.
pub open spec fn default_settings() -> SettingsView {
    SettingsView {
        preferences: "C:/Program Files (x86)/Steam/steamapps/common/SlayTheSpire/preferences"@,
        save_slot: 0,
        row_width: 10,
        font_size: 25,
        text_padding: 4,
        reset_sound: None,
        achievement_sound: None,
        achievements: default_pairs(),
    }
}

/// The achievements of the game and their names.
pub fn default_achievements() -> (pairs: [(String, String); ACHIEVEMENT_COUNT])
    ensures
        pair_views(pairs@) == default_pairs(),
{
    let pairs = [
        ("ADRENALINE".to_owned(), "Adrenaline".to_owned()),
        ("AMETHYST".to_owned(), "Amethyst".to_owned()),
        ("AMETHYST_PLUS".to_owned(), "Amethyst+".to_owned()),
        ("ASCEND_0".to_owned(), "Ascend 0".to_owned()),
        ("ASCEND_10".to_owned(), "Ascend 10".to_owned()),
        ("ASCEND_20".to_owned(), "Ascend 20".to_owned()),
        ("AUTOMATON".to_owned(), "The Automaton".to_owned()),
        ("BARRICADED".to_owned(), "Barricaded".to_owned()),
        ("CATALYST".to_owned(), "Catalyst".to_owned()),
        ("CHAMP".to_owned(), "The Champion".to_owned()),
        ("COLLECTOR".to_owned(), "The Collector".to_owned()),
        ("COME_AT_ME".to_owned(), "Come At Me".to_owned()),
        ("COMMON_SENSE".to_owned(), "Common Sense".to_owned()),
        ("CROW".to_owned(), "The Crow".to_owned()),
        ("DONUT".to_owned(), "Ooh Donut!".to_owned()),
        ("EMERALD".to_owned(), "Emerald".to_owned()),
        ("EMERALD_PLUS".to_owned(), "Emerald+".to_owned()),
        ("ETERNAL_ONE".to_owned(), "Eternal One".to_owned()),
        ("FOCUSED".to_owned(), "Focused".to_owned()),
        ("GHOST_GUARDIAN".to_owned(), "The Ghost".to_owned()),
        ("GUARDIAN".to_owned(), "The Guardian".to_owned()),
        ("IMPERVIOUS".to_owned(), "Impervious".to_owned()),
        ("INFINITY".to_owned(), "Infinity".to_owned()),
        ("JAXXED".to_owned(), "Jaxxed".to_owned()),
        ("LUCKY_DAY".to_owned(), "My Lucky Day".to_owned()),
        ("MINIMALIST".to_owned(), "Minimalist".to_owned()),
        ("NEON".to_owned(), "Neon".to_owned()),
        ("NINJA".to_owned(), "Ninja".to_owned()),
        ("ONE_RELIC".to_owned(), "Who Needs Relics?".to_owned()),
        ("PERFECT".to_owned(), "Perfect".to_owned()),
        ("PLAGUE".to_owned(), "Plague".to_owned()),
        ("POWERFUL".to_owned(), "Powerful".to_owned()),
        ("PURITY".to_owned(), "Purity".to_owned()),
        ("RUBY".to_owned(), "Ruby".to_owned()),
        ("RUBY_PLUS".to_owned(), "Ruby+".to_owned()),
        ("SAPPHIRE".to_owned(), "Sapphire".to_owned()),
        ("SAPPHIRE_PLUS".to_owned(), "Sapphire+".to_owned()),
        ("SHAPES".to_owned(), "The Shapes".to_owned()),
        ("SHRUG_IT_OFF".to_owned(), "Shrug It Off".to_owned()),
        ("SPEED_CLIMBER".to_owned(), "Speed Climber".to_owned()),
        ("THE_ENDING".to_owned(), "The End?".to_owned()),
        ("THE_PACT".to_owned(), "The Pact".to_owned()),
        ("THE_TRANSIENT".to_owned(), "The Transient".to_owned()),
        ("TIME_EATER".to_owned(), "The Time Eater".to_owned()),
        ("YOU_ARE_NOTHING".to_owned(), "You Are Nothing".to_owned()),
    ];
    assert(pair_views(pairs@) =~= default_pairs());
    pairs
}

impl Default for Settings {
    fn default() -> (settings: Self)
        ensures
            settings@ == default_settings(),
    {
        Settings {
            preferences: "C:/Program Files (x86)/Steam/steamapps/common/SlayTheSpire/preferences"
                .to_owned(),
            save_slot: 0,
            row_width: 10,
            font_size: 25,
            text_padding: 4,
            reset_sound: None,
            achievement_sound: None,
            achievements: default_achievements(),
        }
    }
}

/// Every stored achievement holds at least two strings.
pub open spec fn well_shaped(raw: Seq<Vec<String>>) -> bool {
    forall|i: int| 0 <= i < raw.len() ==> (#[trigger] raw[i])@.len() >= 2
}

/// The first two strings of each stored achievement, as identifier and name.
pub open spec fn raw_pairs(raw: Seq<Vec<String>>) -> Seq<(Seq<char>, Seq<char>)> {
    Seq::new(raw.len(), |i: int| (raw[i]@[0]@, raw[i]@[1]@))
}

/// The settings that stored settings stand for. The stored achievements
/// count where there are exactly [`ACHIEVEMENT_COUNT`] of them; with any other
/// number the list is that of a first start.
pub open spec fn settings_of(raw: RawSettings) -> SettingsView {
    SettingsView {
        preferences: raw.preferences@,
        save_slot: raw.save_slot,
        row_width: raw.width,
        font_size: raw.font_size,
        text_padding: raw.padding,
        reset_sound: text_of(raw.reset_sound),
        achievement_sound: text_of(raw.achievement_sound),
        achievements: if raw.raw_achievements@.len() == ACHIEVEMENT_COUNT {
            raw_pairs(raw.raw_achievements@)
        } else {
            default_pairs()
        },
    }
}

/// The decimal digit for `d`, a number below ten.
pub open spec fn digit(d: nat) -> char {
    if d == 0 {
        '0'
    } else if d == 1 {
        '1'
    } else if d == 2 {
        '2'
    } else if d == 3 {
        '3'
    } else if d == 4 {
        '4'
    } else if d == 5 {
        '5'
    } else if d == 6 {
        '6'
    } else if d == 7 {
        '7'
    } else if d == 8 {
        '8'
    } else {
        '9'
    }
}

/// `n` written in decimal, without leading zeros.
pub open spec fn decimal(n: nat) -> Seq<char>
    decreases n,
{
    if n < 10 {
        seq![digit(n)]
    } else {
        decimal(n / 10).push(digit(n % 10))
    }
}

/// The name of the preference file of a save slot: `STSAchievements` for
/// slot 0, and for any other slot the same with the slot's number and an
/// underscore before it.
pub open spec fn resource_file_name(slot: usize) -> Seq<char> {
    if slot == 0 {
        "STSAchievements"@
    } else {
        decimal(slot as nat) + "_STSAchievements"@
    }
}

/// The names to show, by identifier: where `pairs` holds an identifier more
/// than once, its last name counts.
pub open spec fn names_of(pairs: Seq<(Seq<char>, Seq<char>)>) -> Map<Seq<char>, Seq<char>>
    decreases pairs.len(),
{
    if pairs.len() == 0 {
        Map::empty()
    } else {
        names_of(pairs.drop_last()).insert(pairs.last().0, pairs.last().1)
    }
}

/// Where a preference file is: its directory and, within it, its name.
#[derive(Debug)]
pub struct ResourcePath {
    /// The directory that holds the file.
    pub directory: String,
    /// The name of the file within the directory.
    pub file_name: String,
}

/// The names to show, by identifier.
#[derive(Debug)]
pub struct NameMap {
    entries: Vec<(String, String)>,
}

impl View for NameMap {
    type V = Map<Seq<char>, Seq<char>>;

    closed spec fn view(&self) -> Map<Seq<char>, Seq<char>> {
        names_of(pair_views(self.entries@))
    }
}

impl NameMap {
    /// The name to show for `id`, if it has one.
    pub fn get(&self, id: &str) -> (name: Option<&String>)
        ensures
            name matches Some(found) ==> self@.contains_key(id@) && found@ == self@[id@],
            name is None ==> !self@.contains_key(id@),
    {
        let wanted = id.to_owned();
        let ghost pairs = pair_views(self.entries@);
        let mut i: usize = self.entries.len();
        assert(pairs.take(i as int) =~= pairs);
        while i > 0
            invariant
                i <= self.entries@.len(),
                wanted@ == id@,
                pairs == pair_views(self.entries@),
                names_of(pairs).contains_key(id@) == names_of(pairs.take(i as int)).contains_key(
                    id@,
                ),
                names_of(pairs).contains_key(id@) ==> names_of(pairs)[id@] == names_of(
                    pairs.take(i as int),
                )[id@],
            decreases i,
        {
            i -= 1;
            proof {
                let upto = pairs.take(i + 1);
                assert(upto.drop_last() =~= pairs.take(i as int));
                assert(upto.last() == pairs[i as int]);
            }
            if self.entries[i].0 == wanted {
                return Some(&self.entries[i].1);
            }
        }
        None
    }
}

/// The digit for `d` as a string.
fn digit_text(d: usize) -> (text: &'static str)
    requires
        d < 10,
    ensures
        text@ == seq![digit(d as nat)],
{
    proof {
        reveal_strlit("0");
        reveal_strlit("1");
        reveal_strlit("2");
        reveal_strlit("3");
        reveal_strlit("4");
        reveal_strlit("5");
        reveal_strlit("6");
        reveal_strlit("7");
        reveal_strlit("8");
        reveal_strlit("9");
    }
    let text = if d == 0 {
        "0"
    } else if d == 1 {
        "1"
    } else if d == 2 {
        "2"
    } else if d == 3 {
        "3"
    } else if d == 4 {
        "4"
    } else if d == 5 {
        "5"
    } else if d == 6 {
        "6"
    } else if d == 7 {
        "7"
    } else if d == 8 {
        "8"
    } else {
        "9"
    };
    assert(text@ =~= seq![digit(d as nat)]);
    text
}

/// `n` written in decimal.
pub fn to_decimal(n: usize) -> (text: String)
    ensures
        text@ == decimal(n as nat),
    decreases n,
{
    if n < 10 {
        digit_text(n).to_owned()
    } else {
        let text = to_decimal(n / 10).concat(digit_text(n % 10));
        assert(text@ =~= decimal(n as nat / 10).push(digit(n as nat % 10)));
        text
    }
}

/// A copy of a string that may be absent.
fn copy_of(text: &Option<String>) -> (copy: Option<String>)
    ensures
        copy == *text,
{
    match text {
        Some(text) => Some(text.clone()),
        None => None,
    }
}

impl RawSettings {
    /// Whether every stored achievement holds at least two strings.
    pub fn is_well_shaped(&self) -> (shaped: bool)
        ensures
            shaped == well_shaped(self.raw_achievements@),
    {
        let mut i: usize = 0;
        while i < self.raw_achievements.len()
            invariant
                i <= self.raw_achievements@.len(),
                forall|k: int| 0 <= k < i ==> (#[trigger] self.raw_achievements@[k])@.len() >= 2,
            decreases self.raw_achievements@.len() - i,
        {
            if self.raw_achievements[i].len() < 2 {
                return false;
            }
            i += 1;
        }
        true
    }
}

impl Settings {
    /// The name of the preference file of the watched save slot.
    pub fn achievements_file_name(&self) -> (name: String)
        ensures
            name@ == resource_file_name(self.save_slot),
    {
        if self.save_slot == 0 {
            "STSAchievements".to_owned()
        } else {
            to_decimal(self.save_slot).concat("_STSAchievements")
        }
    }

    /// Where the preference file of the watched save slot is: in the
    /// directory of the preference files, under the name of the slot's file.
    pub fn achievements_path(&self) -> (path: ResourcePath)
        ensures
            path.directory@ == self.preferences@,
            path.file_name@ == resource_file_name(self.save_slot),
    {
        ResourcePath {
            directory: self.preferences.clone(),
            file_name: self.achievements_file_name(),
        }
    }

    /// The snapshot of the watched save slot, given what reading the file at
    /// [`Settings::achievements_path`] gave: its bytes, or nothing where it
    /// could not be opened or read.
    pub fn achievements(&self, contents: Option<&[u8]>) -> (snapshot: Result<
        Achievements,
        ResourceUnavailable,
    >)
        ensures
            snapshot_view(snapshot) == resource_snapshot(bytes_of(contents)),
    {
        Achievements::from_resource(contents)
    }

    /// The settings that stored settings stand for.
    pub fn from_raw(raw: RawSettings) -> (settings: Self)
        requires
            well_shaped(raw.raw_achievements@),
        ensures
            settings@ == settings_of(raw),
    {
        let mut achievements = default_achievements();
        if raw.raw_achievements.len() == ACHIEVEMENT_COUNT {
            let mut i: usize = 0;
            while i < ACHIEVEMENT_COUNT
                invariant
                    i <= ACHIEVEMENT_COUNT,
                    raw.raw_achievements@.len() == ACHIEVEMENT_COUNT,
                    well_shaped(raw.raw_achievements@),
                    forall|k: int|
                        0 <= k < i ==> {
                            &&& (#[trigger] achievements@[k]).0 == raw.raw_achievements@[k]@[0]
                            &&& achievements@[k].1 == raw.raw_achievements@[k]@[1]
                        },
                decreases ACHIEVEMENT_COUNT - i,
            {
                let stored = &raw.raw_achievements[i];
                achievements[i] = (stored[0].clone(), stored[1].clone());
                i += 1;
            }
            assert(pair_views(achievements@) =~= raw_pairs(raw.raw_achievements@));
        }
        Settings {
            preferences: raw.preferences,
            save_slot: raw.save_slot,
            row_width: raw.width,
            font_size: raw.font_size,
            text_padding: raw.padding,
            reset_sound: raw.reset_sound,
            achievement_sound: raw.achievement_sound,
            achievements,
        }
    }

    /// The settings as they are stored: each achievement as its identifier
    /// followed by its name. Read back, they are these settings.
    pub fn to_raw(&self) -> (raw: RawSettings)
        ensures
            raw.raw_achievements@.len() == ACHIEVEMENT_COUNT,
            forall|i: int|
                0 <= i < ACHIEVEMENT_COUNT ==> (#[trigger] raw.raw_achievements@[i])@.len() == 2,
            well_shaped(raw.raw_achievements@),
            settings_of(raw) == self@,
    {
        let mut raw_achievements: Vec<Vec<String>> = Vec::new();
        let mut i: usize = 0;
        while i < ACHIEVEMENT_COUNT
            invariant
                i <= ACHIEVEMENT_COUNT,
                raw_achievements@.len() == i,
                forall|k: int|
                    0 <= k < i ==> {
                        &&& (#[trigger] raw_achievements@[k])@.len() == 2
                        &&& raw_achievements@[k]@[0] == self.achievements@[k].0
                        &&& raw_achievements@[k]@[1] == self.achievements@[k].1
                    },
            decreases ACHIEVEMENT_COUNT - i,
        {
            let mut stored: Vec<String> = Vec::new();
            stored.push(self.achievements[i].0.clone());
            stored.push(self.achievements[i].1.clone());
            raw_achievements.push(stored);
            i += 1;
        }
        assert(raw_pairs(raw_achievements@) =~= pair_views(self.achievements@));
        RawSettings {
            preferences: self.preferences.clone(),
            save_slot: self.save_slot,
            width: self.row_width,
            font_size: self.font_size,
            padding: self.text_padding,
            reset_sound: copy_of(&self.reset_sound),
            achievement_sound: copy_of(&self.achievement_sound),
            raw_achievements,
        }
    }

    /// The names to show, by identifier.
    pub fn name_map(&self) -> (names: NameMap)
        ensures
            names@ == names_of(self@.achievements),
    {
        let mut entries: Vec<(String, String)> = Vec::new();
        let mut i: usize = 0;
        while i < ACHIEVEMENT_COUNT
            invariant
                i <= ACHIEVEMENT_COUNT,
                entries@.len() == i,
                forall|k: int| 0 <= k < i ==> entries@[k] == self.achievements@[k],
            decreases ACHIEVEMENT_COUNT - i,
        {
            entries.push((self.achievements[i].0.clone(), self.achievements[i].1.clone()));
            i += 1;
        }
        assert(pair_views(entries@) =~= pair_views(self.achievements@));
        NameMap { entries }
    }
}

} // verus!
