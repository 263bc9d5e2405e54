//! Snapshots of unlocked achievements and the comparison of two of them.
use crate::resource::{identifiers, lemma_identifiers_nonempty, scan, view_set};
use vstd::prelude::*;
use vstd::utf8::{decode_utf8, valid_utf8};

verus! {

/// How a snapshot relates to the one taken before it.
#[derive(Clone, Copy, Debug, PartialEq, Eq, Structural)]
pub enum ComparisonResult {
    /// Both snapshots hold the same identifiers.
    Unchanged,
    /// Every earlier identifier is still there, and at least one is new.
    Progressed,
    /// No identifier is new, and at least one earlier identifier is gone.
    Regressed,
    /// At least one identifier is gone and at least one is new.
    Diverged,
}

/// The cue that a change of snapshot asks for.
#[derive(Clone, Copy, Debug, PartialEq, Eq, Structural)]
pub enum Cue {
    /// Nothing is played.
    Silent,
    /// An achievement was unlocked.
    Unlock,
    /// Progress was lost.
    Reset,
}

/// The preference resource could not be opened, or could not be read as text.
#[derive(Clone, Copy, Debug, PartialEq, Eq, Structural)]
pub struct ResourceUnavailable;

/// The achievements found unlocked at one moment: a set of identifiers, none
/// of them empty.
#[derive(Debug)]
pub struct Achievements {
    values: Vec<String>,
}

impl View for Achievements {
    type V = Set<Seq<char>>;

    /// The identifiers of the snapshot.
    closed spec fn view(&self) -> Set<Seq<char>> {
        view_set(self.values@)
    }
}

/// The relation of `next` to `previous` under set inclusion.
pub open spec fn classify(previous: Set<Seq<char>>, next: Set<Seq<char>>) -> ComparisonResult {
    if previous.subset_of(next) && next.subset_of(previous) {
        ComparisonResult::Unchanged
    } else if previous.subset_of(next) {
        ComparisonResult::Progressed
    } else if next.subset_of(previous) {
        ComparisonResult::Regressed
    } else {
        ComparisonResult::Diverged
    }
}

/// The same change seen from the later snapshot back to the earlier one.
pub open spec fn reversed(result: ComparisonResult) -> ComparisonResult {
    match result {
        ComparisonResult::Unchanged => ComparisonResult::Unchanged,
        ComparisonResult::Progressed => ComparisonResult::Regressed,
        ComparisonResult::Regressed => ComparisonResult::Progressed,
        ComparisonResult::Diverged => ComparisonResult::Diverged,
    }
}

/// The cue for each kind of change: an unlock cue for progress, a reset cue
/// whenever an earlier identifier is gone, none when nothing changed.
pub open spec fn cue_of(result: ComparisonResult) -> Cue {
    match result {
        ComparisonResult::Unchanged => Cue::Silent,
        ComparisonResult::Progressed => Cue::Unlock,
        ComparisonResult::Regressed => Cue::Reset,
        ComparisonResult::Diverged => Cue::Reset,
    }
}

/// What each result says of two sets of identifiers: that they are equal,
/// that the later one has strictly grown, that it has strictly shrunk, or that
/// neither lies inside the other.
pub open spec fn describes(
    result: ComparisonResult,
    previous: Set<Seq<char>>,
    next: Set<Seq<char>>,
) -> bool {
    match result {
        ComparisonResult::Unchanged => previous == next,
        ComparisonResult::Progressed => previous.subset_of(next) && previous != next,
        ComparisonResult::Regressed => next.subset_of(previous) && previous != next,
        ComparisonResult::Diverged => !previous.subset_of(next) && !next.subset_of(previous),
    }
}

/// The text of a resource, given what reading it gave: its bytes, or nothing
/// where it could not be opened or read. Bytes that are not valid UTF-8 are no
/// text.
pub open spec fn resource_text(contents: Option<Seq<u8>>) -> Option<Seq<char>> {
    match contents {
        Some(bytes) => if valid_utf8(bytes) {
            Some(decode_utf8(bytes))
        } else {
            None
        },
        None => None,
    }
}

/// The snapshot that a resource describes, given what reading it gave.
pub open spec fn resource_snapshot(contents: Option<Seq<u8>>) -> Result<
    Set<Seq<char>>,
    ResourceUnavailable,
> {
    match resource_text(contents) {
        Some(text) => Ok(identifiers(text)),
        None => Err(ResourceUnavailable),
    }
}

/// What reading a resource gave, as plain bytes.
pub open spec fn bytes_of(contents: Option<&[u8]>) -> Option<Seq<u8>> {
    match contents {
        Some(bytes) => Some(bytes@),
        None => None,
    }
}

/// The identifiers of a snapshot that may be missing.
pub open spec fn snapshot_view(snapshot: Result<Achievements, ResourceUnavailable>) -> Result<
    Set<Seq<char>>,
    ResourceUnavailable,
> {
    match snapshot {
        Ok(snapshot) => Ok(snapshot@),
        Err(e) => Err(e),
    }
}

/// The sets that a snapshot can hold: finite, and without the empty identifier.
pub open spec fn is_snapshot(ids: Set<Seq<char>>) -> bool {
    &&& ids.finite()
    &&& !ids.contains(Seq::<char>::empty())
}

/// The identifiers in `ids` that are not empty.
pub open spec fn nonempty_views(ids: Seq<String>) -> Set<Seq<char>> {
    view_set(ids).filter(|id: Seq<char>| id.len() > 0)
}

/// No identifier occurs twice in `ids`, and none is empty.
pub open spec fn distinct_nonempty(ids: Seq<String>) -> bool {
    &&& forall|i: int| 0 <= i < ids.len() ==> (#[trigger] ids[i])@.len() > 0
    &&& forall|i: int, j: int|
        0 <= i < j < ids.len() ==> (#[trigger] ids[i])@ != (#[trigger] ids[j])@
}

/// As many identifiers are in the set of `ids` as `ids` is long, where none
/// occurs twice.
pub proof fn lemma_distinct_len(ids: Seq<String>)
    requires
        distinct_nonempty(ids),
    ensures
        view_set(ids).finite(),
        view_set(ids).len() == ids.len(),
        !view_set(ids).contains(Seq::<char>::empty()),
{
    let views = ids.map_values(|s: String| s@);
    assert(views.no_duplicates());
    assert forall|id: Seq<char>| view_set(ids).contains(id) implies views.to_set().contains(id) by {
        let k = choose|k: int| 0 <= k < ids.len() && #[trigger] ids[k]@ == id;
        assert(views[k] == id);
    }
    assert forall|id: Seq<char>| views.to_set().contains(id) implies view_set(ids).contains(id) by {
        let k = choose|k: int| 0 <= k < views.len() && views[k] == id;
        assert(ids[k]@ == id);
    }
    assert(view_set(ids) =~= views.to_set());
    views.unique_seq_to_set();
    vstd::seq_lib::seq_to_set_is_finite(views);
}

/// `core::str::Utf8Error`, the error of `core::str::from_utf8`. Nothing is
/// said of what it holds.
#[verifier::external_type_specification]
#[verifier::external_body]
pub struct ExUtf8Error(core::str::Utf8Error);

/// `core::str::from_utf8`: it succeeds exactly on bytes that are valid UTF-8,
/// and the string slice it then gives holds the characters that the bytes
/// encode.
pub assume_specification<'a>[ core::str::from_utf8 ](v: &'a [u8]) -> (r: Result<
    &'a str,
    core::str::Utf8Error,
>)
    ensures
        r is Ok <==> valid_utf8(v@),
        r matches Ok(s) ==> s@ == decode_utf8(v@),
;

impl ComparisonResult {
    /// The cue to play after this change.
    pub fn cue(self) -> (cue: Cue)
        ensures
            cue == cue_of(self),
    {
        match self {
            ComparisonResult::Unchanged => Cue::Silent,
            ComparisonResult::Progressed => Cue::Unlock,
            ComparisonResult::Regressed => Cue::Reset,
            ComparisonResult::Diverged => Cue::Reset,
        }
    }
}

impl Achievements {
    #[verifier::type_invariant]
    spec fn well_formed(self) -> bool {
        distinct_nonempty(self.values@)
    }

    /// The snapshot without any identifier.
    pub fn new() -> (snapshot: Self)
        ensures
            snapshot@ == Set::<Seq<char>>::empty(),
    {
        let values: Vec<String> = Vec::new();
        assert(view_set(values@) =~= Set::<Seq<char>>::empty());
        Achievements { values }
    }

    /// The snapshot of the identifiers in `ids`. An identifier that occurs
    /// more than once counts once, and an empty one is left out.
    pub fn from_identifiers(ids: Vec<String>) -> (snapshot: Self)
        ensures
            snapshot@ == nonempty_views(ids@),
            is_snapshot(snapshot@),
    {
        let mut values: Vec<String> = Vec::new();
        let mut i: usize = 0;
        assert(view_set(values@) =~= nonempty_views(ids@.take(0)));
        while i < ids.len()
            invariant
                i <= ids@.len(),
                distinct_nonempty(values@),
                view_set(values@) == nonempty_views(ids@.take(i as int)),
            decreases ids@.len() - i,
        {
            let ghost before = values@;
            let fresh = !ids[i].as_str().is_empty() && !holds(&values, &ids[i]);
            if fresh {
                values.push(ids[i].clone());
            }
            proof {
                let id = ids@[i as int]@;
                let seen = ids@.take(i as int);
                let next = ids@.take(i + 1);
                assert forall|x: Seq<char>| view_set(values@).contains(x) implies nonempty_views(
                    next,
                ).contains(x) by {
                    let k = choose|k: int| 0 <= k < values@.len() && #[trigger] values@[k]@ == x;
                    if k < before.len() {
                        assert(before[k]@ == x);
                        assert(view_set(before).contains(x));
                        let m = choose|m: int| 0 <= m < seen.len() && #[trigger] seen[m]@ == x;
                        assert(next[m]@ == x);
                    } else {
                        assert(next[i as int]@ == x);
                    }
                }
                assert forall|x: Seq<char>| nonempty_views(next).contains(x) implies view_set(
                    values@,
                ).contains(x) by {
                    let m = choose|m: int| 0 <= m < next.len() && #[trigger] next[m]@ == x;
                    if m < i {
                        assert(seen[m]@ == x);
                        assert(nonempty_views(seen).contains(x));
                        let k = choose|k: int| 0 <= k < before.len() && #[trigger] before[k]@ == x;
                        assert(values@[k]@ == x);
                    } else if fresh {
                        assert(values@[before.len() as int]@ == x);
                    } else {
                        assert(view_set(before).contains(x));
                        let k = choose|k: int| 0 <= k < before.len() && #[trigger] before[k]@ == x;
                        assert(values@[k]@ == x);
                    }
                }
                assert(view_set(values@) =~= nonempty_views(next));
            }
            i += 1;
        }
        proof {
            assert(ids@.take(i as int) =~= ids@);
            lemma_distinct_len(values@);
        }
        Achievements { values }
    }

    /// The snapshot that the text of a preference resource describes: the
    /// identifiers that its lines name.
    pub fn parse(text: &str) -> (snapshot: Self)
        ensures
            snapshot@ == identifiers(text@),
            is_snapshot(snapshot@),
    {
        let ids = scan(text);
        proof {
            lemma_identifiers_nonempty(text@);
            assert(nonempty_views(ids@) =~= identifiers(text@));
        }
        Achievements::from_identifiers(ids)
    }

    /// The snapshot that a preference resource describes, given what reading
    /// it gave: its bytes, or nothing where it could not be opened or read.
    /// The resource is unavailable where nothing was read and where the bytes
    /// are not valid UTF-8; any text gives a snapshot.
    pub fn from_resource(contents: Option<&[u8]>) -> (snapshot: Result<Self, ResourceUnavailable>)
        ensures
            snapshot_view(snapshot) == resource_snapshot(bytes_of(contents)),
            snapshot matches Ok(read) ==> is_snapshot(read@),
    {
        match contents {
            Some(bytes) => match core::str::from_utf8(bytes) {
                Ok(text) => Ok(Achievements::parse(text)),
                Err(_) => Err(ResourceUnavailable),
            },
            None => Err(ResourceUnavailable),
        }
    }

    /// Whether `id` is unlocked in this snapshot.
    pub fn contains(&self, id: &str) -> (found: bool)
        ensures
            found == self@.contains(id@),
    {
        let wanted = id.to_owned();
        holds(&self.values, &wanted)
    }

    /// The number of identifiers in the snapshot.
    pub fn len(&self) -> (n: usize)
        ensures
            is_snapshot(self@),
            n == self@.len(),
    {
        proof {
            use_type_invariant(self);
            lemma_distinct_len(self.values@);
        }
        self.values.len()
    }

    /// Whether the snapshot holds no identifier.
    pub fn is_empty(&self) -> (empty: bool)
        ensures
            empty == (self@ == Set::<Seq<char>>::empty()),
    {
        proof {
            if self.values@.len() > 0 {
                assert(view_set(self.values@).contains(self.values@[0]@));
            } else {
                assert(view_set(self.values@) =~= Set::<Seq<char>>::empty());
            }
        }
        self.values.len() == 0
    }

    /// The identifiers of the snapshot, each once.
    pub fn identifiers(&self) -> (ids: Vec<String>)
        ensures
            distinct_nonempty(ids@),
            view_set(ids@) == self@,
            ids@.len() == self@.len(),
    {
        proof {
            use_type_invariant(self);
            lemma_distinct_len(self.values@);
        }
        let mut ids: Vec<String> = Vec::new();
        let mut i: usize = 0;
        while i < self.values.len()
            invariant
                i <= self.values@.len(),
                ids@ == self.values@.take(i as int),
            decreases self.values@.len() - i,
        {
            ids.push(self.values[i].clone());
            assert(ids@ =~= self.values@.take(i + 1));
            i += 1;
        }
        assert(ids@ =~= self.values@);
        ids
    }

    /// Whether every identifier of this snapshot is in `other` too.
    pub fn is_subset(&self, other: &Achievements) -> (inside: bool)
        ensures
            inside == self@.subset_of(other@),
    {
        let mut i: usize = 0;
        while i < self.values.len()
            invariant
                i <= self.values@.len(),
                forall|k: int| 0 <= k < i ==> other@.contains(#[trigger] self.values@[k]@),
            decreases self.values@.len() - i,
        {
            if !holds(&other.values, &self.values[i]) {
                assert(self@.contains(self.values@[i as int]@));
                return false;
            }
            i += 1;
        }
        assert forall|id: Seq<char>| self@.contains(id) implies other@.contains(id) by {
            let k = choose|k: int| 0 <= k < self.values@.len() && #[trigger] self.values@[k]@ == id;
            assert(other@.contains(self.values@[k]@));
        }
        true
    }

    /// How `next` relates to this snapshot, taken before it.
    pub fn compare(&self, next: &Achievements) -> (result: ComparisonResult)
        ensures
            result == classify(self@, next@),
    {
        let kept = self.is_subset(next);
        let nothing_new = next.is_subset(self);
        if kept && nothing_new {
            ComparisonResult::Unchanged
        } else if kept {
            ComparisonResult::Progressed
        } else if nothing_new {
            ComparisonResult::Regressed
        } else {
            ComparisonResult::Diverged
        }
    }
}

impl Default for Achievements {
    /// The snapshot without any identifier.
    fn default() -> (snapshot: Self)
        ensures
            snapshot@ == Set::<Seq<char>>::empty(),
    {
        Achievements::new()
    }
}

/// Whether `id` is among `values`.
fn holds(values: &Vec<String>, id: &String) -> (found: bool)
    ensures
        found == view_set(values@).contains(id@),
{
    let mut i: usize = 0;
    while i < values.len()
        invariant
            i <= values@.len(),
            forall|k: int| 0 <= k < i ==> (#[trigger] values@[k])@ != id@,
        decreases values@.len() - i,
    {
        if values[i] == *id {
            return true;
        }
        i += 1;
    }
    false
}

/// A set of identifiers compared with itself is unchanged.
pub proof fn lemma_classify_reflexive(a: Set<Seq<char>>)
    ensures
        classify(a, a) == ComparisonResult::Unchanged,
{
}

/// Swapping the two snapshots swaps progress and regression: `b` is
/// progress over `a` exactly when `a` is a regression from `b`, and the
/// other way round. Unchanged and diverged snapshots stay so.
pub proof fn lemma_classify_antisymmetric(a: Set<Seq<char>>, b: Set<Seq<char>>)
    ensures
        classify(a, b) == ComparisonResult::Progressed <==> classify(b, a)
            == ComparisonResult::Regressed,
        classify(a, b) == ComparisonResult::Regressed <==> classify(b, a)
            == ComparisonResult::Progressed,
        classify(b, a) == reversed(classify(a, b)),
{
}

/// Of any two sets of identifiers exactly one of the four results holds, the
/// one that the comparison gives: a result describes the two sets if and only
/// if it is their classification.
pub proof fn lemma_classify_total(a: Set<Seq<char>>, b: Set<Seq<char>>)
    ensures
        forall|result: ComparisonResult| #[trigger]
            describes(result, a, b) <==> result == classify(a, b),
{
    if a.subset_of(b) && b.subset_of(a) {
        assert(a =~= b);
    }
}

/// A reset cue is due exactly when an earlier identifier is gone, an unlock
/// cue exactly when none is gone and at least one is new, and none exactly
/// when the two sets are equal.
pub proof fn lemma_cue_meaning(previous: Set<Seq<char>>, next: Set<Seq<char>>)
    ensures
        cue_of(classify(previous, next)) == Cue::Reset <==> !previous.subset_of(next),
        cue_of(classify(previous, next)) == Cue::Unlock <==> previous.subset_of(next) && previous
            != next,
        cue_of(classify(previous, next)) == Cue::Silent <==> previous == next,
{
    if previous.subset_of(next) && next.subset_of(previous) {
        assert(previous =~= next);
    }
}

/// What a text names depends on its characters alone: a text read a second
/// time names the same identifiers, and the second snapshot compares as
/// unchanged with the first.
pub proof fn lemma_reparse_unchanged(first: Seq<char>, second: Seq<char>)
    requires
        first == second,
    ensures
        identifiers(first) == identifiers(second),
        classify(identifiers(first), identifiers(second)) == ComparisonResult::Unchanged,
{
}

} // verus!
