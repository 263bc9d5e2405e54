//! The state that the tracker keeps from one poll of the preference file to
//! the next, and what it shows of it.
use crate::achievement_list::{
    Achievements, ComparisonResult, ResourceUnavailable, bytes_of, classify, resource_snapshot,
};
use crate::settings::{
    ACHIEVEMENT_COUNT, NameMap, Settings, SettingsView, names_of, pair_views,
};
use vstd::prelude::*;
use vstd::string::*;

verus! {

/// The tracker between two polls: its settings and the latest snapshot.
#[derive(Debug)]
pub struct App {
    settings: Settings,
    rename_map: NameMap,
    achievements: Achievements,
}

/// What a value of [`App`] holds.
pub struct AppView {
    /// The settings of the tracker.
    pub settings: SettingsView,
    /// The identifiers of the latest snapshot.
    pub snapshot: Set<Seq<char>>,
}

/// One entry of the list as it is shown.
#[derive(Debug)]
pub struct Cell {
    /// The name of the achievement, followed by the padding.
    pub text: String,
    /// Whether the achievement is unlocked in the latest snapshot.
    pub unlocked: bool,
    /// Whether the row ends after this entry.
    pub ends_row: bool,
}

/// What a value of [`Cell`] holds.
pub struct CellView {
    /// The text of [`Cell::text`].
    pub text: Seq<char>,
    /// [`Cell::unlocked`].
    pub unlocked: bool,
    /// [`Cell::ends_row`].
    pub ends_row: bool,
}

impl View for Cell {
    type V = CellView;

    open spec fn view(&self) -> CellView {
        CellView { text: self.text@, unlocked: self.unlocked, ends_row: self.ends_row }
    }
}

/// `n` spaces.
pub open spec fn spaces(n: nat) -> Seq<char> {
    Seq::new(n, |i: int| ' ')
}

/// The name under which the list shows `id`: the name that the settings give
/// it, or `id` itself where they give none.
pub open spec fn shown_name(settings: SettingsView, id: Seq<char>) -> Seq<char> {
    let names = names_of(settings.achievements);
    if names.contains_key(id) {
        names[id]
    } else {
        id
    }
}

/// Entry `i` of the list: the shown name of the achievement at that place
/// with the padding after it, whether the snapshot holds the achievement, and
/// whether the entry is the last of a row of `row_width` entries.
pub open spec fn cell_at(settings: SettingsView, snapshot: Set<Seq<char>>, i: int) -> CellView {
    let id = settings.achievements[i].0;
    CellView {
        text: shown_name(settings, id) + spaces(settings.text_padding as nat),
        unlocked: snapshot.contains(id),
        ends_row: (i + 1) % (settings.row_width as int) == 0,
    }
}

/// The snapshot with which the tracker starts, given what the first read of
/// the preference file gave: the snapshot read, or the empty one where the
/// resource was unavailable.
pub open spec fn first_snapshot(contents: Option<Seq<u8>>) -> Set<Seq<char>> {
    match resource_snapshot(contents) {
        Ok(ids) => ids,
        Err(_) => Set::empty(),
    }
}

/// One poll: from the latest snapshot and what the poll gave to the result
/// of the poll and the snapshot that is the latest after it. An unavailable
/// resource leaves the latest snapshot in place; a snapshot read replaces it
/// and is classified against it.
pub open spec fn poll_step(
    latest: Set<Seq<char>>,
    polled: Result<Set<Seq<char>>, ResourceUnavailable>,
) -> (Result<ComparisonResult, ResourceUnavailable>, Set<Seq<char>>) {
    match polled {
        Ok(ids) => (Ok(classify(latest, ids)), ids),
        Err(e) => (Err(e), latest),
    }
}

/// `n` spaces.
pub fn padding(n: usize) -> (text: String)
    ensures
        text@ == spaces(n as nat),
{
    let mut text = String::new();
    let mut i: usize = 0;
    proof {
        reveal_strlit(" ");
        assert(text@ =~= spaces(0));
    }
    while i < n
        invariant
            i <= n,
            text@ == spaces(i as nat),
            " "@ == seq![' '],
        decreases n - i,
    {
        text.append(" ");
        assert(text@ =~= spaces((i + 1) as nat));
        i += 1;
    }
    text
}

impl View for App {
    type V = AppView;

    closed spec fn view(&self) -> AppView {
        AppView { settings: self.settings@, snapshot: self.achievements@ }
    }
}

impl App {
    #[verifier::type_invariant]
    spec fn well_formed(self) -> bool {
        self.rename_map@ == names_of(self.settings@.achievements)
    }

    /// The tracker at its start, given what the first read of the preference
    /// file gave. No cue belongs to the first snapshot.
    pub fn new(settings: Settings, contents: Option<&[u8]>) -> (app: Self)
        ensures
            app@.settings == settings@,
            app@.snapshot == first_snapshot(bytes_of(contents)),
    {
        let rename_map = settings.name_map();
        let achievements = match settings.achievements(contents) {
            Ok(snapshot) => snapshot,
            Err(_) => Achievements::new(),
        };
        App { settings, rename_map, achievements }
    }

    /// Takes in what a poll of the preference file gave. Where the resource
    /// was unavailable the tracker stays as it was. Otherwise the snapshot
    /// read takes the place of the latest one, whatever the change, and the
    /// result says how it relates to the one before.
    pub fn update(&mut self, contents: Option<&[u8]>) -> (result: Result<
        ComparisonResult,
        ResourceUnavailable,
    >)
        ensures
            final(self)@.settings == old(self)@.settings,
            (result, final(self)@.snapshot) == poll_step(
                old(self)@.snapshot,
                resource_snapshot(bytes_of(contents)),
            ),
    {
        proof {
            use_type_invariant(&*self);
        }
        match self.settings.achievements(contents) {
            Ok(snapshot) => {
                let result = self.achievements.compare(&snapshot);
                self.achievements = snapshot;
                Ok(result)
            },
            Err(e) => Err(e),
        }
    }

    /// The settings of the tracker.
    pub fn settings(&self) -> (settings: &Settings)
        ensures
            settings@ == self@.settings,
    {
        &self.settings
    }

    /// The latest snapshot.
    pub fn achievements(&self) -> (snapshot: &Achievements)
        ensures
            snapshot@ == self@.snapshot,
    {
        &self.achievements
    }

    /// The entries of the list, in the order of the settings.
    pub fn cells(&self) -> (cells: Vec<Cell>)
        requires
            self@.settings.row_width > 0,
        ensures
            cells@.len() == ACHIEVEMENT_COUNT,
            forall|i: int| 0 <= i < ACHIEVEMENT_COUNT ==> (#[trigger] cells@[i])@ == cell_at(
                self@.settings,
                self@.snapshot,
                i,
            ),
    {
        proof {
            use_type_invariant(self);
        }
        let gap = padding(self.settings.text_padding);
        let mut cells: Vec<Cell> = Vec::new();
        let mut i: usize = 0;
        while i < ACHIEVEMENT_COUNT
            invariant
                i <= ACHIEVEMENT_COUNT,
                self.settings.row_width > 0,
                gap@ == spaces(self.settings.text_padding as nat),
                self.rename_map@ == names_of(self.settings@.achievements),
                cells@.len() == i,
                forall|k: int| 0 <= k < i ==> (#[trigger] cells@[k])@ == cell_at(
                    self.settings@,
                    self.achievements@,
                    k,
                ),
            decreases ACHIEVEMENT_COUNT - i,
        {
            let id = &self.settings.achievements[i].0;
            assert(pair_views(self.settings.achievements@)[i as int].0 == id@);
            let name = match self.rename_map.get(id.as_str()) {
                Some(name) => name.clone(),
                None => id.clone(),
            };
            let text = name.concat(gap.as_str());
            let unlocked = self.achievements.contains(id.as_str());
            let ends_row = (i + 1) % self.settings.row_width == 0;
            cells.push(Cell { text, unlocked, ends_row });
            i += 1;
        }
        cells
    }
}

} // verus!
