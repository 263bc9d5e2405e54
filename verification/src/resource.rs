//! The text format of a preference resource.
//!
//! A resource is read line by line. A line that holds the separator `": "`
//! (a colon and a space) names one identifier: the text before the first
//! separator, without the white space around it and without one pair of double
//! quotes enclosing it. What follows the separator is not looked at. A line
//! without a separator, or one whose identifier would be empty, names nothing.
use vstd::prelude::*;
use vstd::string::*;

verus! {

/// White space: the code points with the Unicode property `White_Space`.
pub open spec fn is_whitespace(c: char) -> bool {
    let n = c as u32;
    ||| 0x09 <= n <= 0x0D
    ||| n == 0x20
    ||| n == 0x85
    ||| n == 0xA0
    ||| n == 0x1680
    ||| 0x2000 <= n <= 0x200A
    ||| n == 0x2028
    ||| n == 0x2029
    ||| n == 0x202F
    ||| n == 0x205F
    ||| n == 0x3000
}

/// `s` without its leading white space.
pub open spec fn trim_start(s: Seq<char>) -> Seq<char>
    decreases s.len(),
{
    if s.len() > 0 && is_whitespace(s.first()) {
        trim_start(s.drop_first())
    } else {
        s
    }
}

/// `s` without its trailing white space.
pub open spec fn trim_end(s: Seq<char>) -> Seq<char>
    decreases s.len(),
{
    if s.len() > 0 && is_whitespace(s.last()) {
        trim_end(s.drop_last())
    } else {
        s
    }
}

/// `s` without the white space at either end.
pub open spec fn trim(s: Seq<char>) -> Seq<char> {
    trim_end(trim_start(s))
}

/// `s` without its first and last character, where both are double quotes;
/// otherwise `s` itself.
pub open spec fn unquote(s: Seq<char>) -> Seq<char> {
    if s.len() >= 2 && s.first() == '"' && s.last() == '"' {
        s.subrange(1, s.len() - 1)
    } else {
        s
    }
}

/// A separator, a colon followed by a space, begins at index `i` of `line`.
pub open spec fn separator_at(line: Seq<char>, i: int) -> bool {
    &&& 0 <= i
    &&& i + 1 < line.len()
    &&& line[i] == ':'
    &&& line[i + 1] == ' '
}

/// `i` is where the first separator of `line` begins.
pub open spec fn is_first_separator(line: Seq<char>, i: int) -> bool {
    &&& separator_at(line, i)
    &&& forall|j: int| 0 <= j < i ==> !separator_at(line, j)
}

/// Where the first separator of `line` begins, if it has one.
pub open spec fn first_separator(line: Seq<char>) -> Option<int> {
    if exists|i: int| is_first_separator(line, i) {
        Some(choose|i: int| is_first_separator(line, i))
    } else {
        None
    }
}

/// The identifier that stands in `before`, the part of a line before its
/// first separator: `before` without the white space around it and without one
/// pair of enclosing double quotes, unless that is empty.
pub open spec fn key_of(before: Seq<char>) -> Option<Seq<char>> {
    let id = unquote(trim(before));
    if id.len() > 0 {
        Some(id)
    } else {
        None
    }
}

/// The identifier that `line` names, if it names one.
pub open spec fn line_key(line: Seq<char>) -> Option<Seq<char>> {
    match first_separator(line) {
        Some(i) => key_of(line.take(i)),
        None => None,
    }
}

/// `ids` with the identifier `key` added, if there is one.
pub open spec fn with_key(ids: Set<Seq<char>>, key: Option<Seq<char>>) -> Set<Seq<char>> {
    match key {
        Some(id) => ids.insert(id),
        None => ids,
    }
}

/// `text[start..end]` is a line of `text`: it is free of line feeds, begins
/// at the start of the text or after a line feed, and ends at the end of the
/// text or before a line feed.
pub open spec fn is_line(text: Seq<char>, start: int, end: int) -> bool {
    &&& 0 <= start <= end <= text.len()
    &&& (start == 0 || text[start - 1] == '\n')
    &&& (end == text.len() || text[end] == '\n')
    &&& forall|i: int| start <= i < end ==> text[i] != '\n'
}

/// A line of `text` names `id`.
pub open spec fn names(text: Seq<char>, id: Seq<char>) -> bool {
    exists|start: int, end: int|
        #![trigger is_line(text, start, end)]
        is_line(text, start, end) && line_key(text.subrange(start, end)) == Some(id)
}

/// The identifiers that the lines of `text` name.
pub open spec fn identifiers(text: Seq<char>) -> Set<Seq<char>> {
    Set::new(|id: Seq<char>| names(text, id))
}

/// A line of `text` that ends before index `bound` names `id`.
pub open spec fn named_before(text: Seq<char>, bound: int, id: Seq<char>) -> bool {
    exists|start: int, end: int|
        #![trigger is_line(text, start, end)]
        is_line(text, start, end) && end < bound && line_key(text.subrange(start, end)) == Some(id)
}

/// The identifiers named by the lines of `text` that end before index `bound`.
pub open spec fn identifiers_before(text: Seq<char>, bound: int) -> Set<Seq<char>> {
    Set::new(|id: Seq<char>| named_before(text, bound, id))
}

/// The views of the strings in `ids`, as a set.
pub open spec fn view_set(ids: Seq<String>) -> Set<Seq<char>> {
    Set::new(|id: Seq<char>| exists|k: int| 0 <= k < ids.len() && #[trigger] ids[k]@ == id)
}

/// A separator that no other precedes is the first one.
pub proof fn lemma_first_separator_found(line: Seq<char>, i: int)
    requires
        is_first_separator(line, i),
    ensures
        first_separator(line) == Some(i),
{
    let found = choose|k: int| is_first_separator(line, k);
    assert(is_first_separator(line, found));
    if found < i {
        assert(!separator_at(line, found));
    }
    if i < found {
        assert(!separator_at(line, i));
    }
}

/// A line without any separator has no first one, and names nothing.
pub proof fn lemma_no_separator(line: Seq<char>)
    requires
        forall|j: int| 0 <= j ==> !separator_at(line, j),
    ensures
        first_separator(line) is None,
        line_key(line) is None,
{
    assert forall|i: int| !is_first_separator(line, i) by {
        if 0 <= i {
            assert(!separator_at(line, i));
        }
    }
}

/// No line names the empty identifier.
pub proof fn lemma_identifiers_nonempty(text: Seq<char>)
    ensures
        !identifiers(text).contains(Seq::<char>::empty()),
        forall|id: Seq<char>| identifiers(text).contains(id) ==> id.len() > 0,
{
    assert forall|id: Seq<char>| identifiers(text).contains(id) implies id.len() > 0 by {
        let (s, e) = choose|s: int, e: int|
            #![trigger is_line(text, s, e)]
            is_line(text, s, e) && line_key(text.subrange(s, e)) == Some(id);
    }
}

/// The lines that end at or before index `end` are those that end before the
/// start of the line `text[start..end]`, and that line itself.
pub proof fn lemma_identifiers_step(text: Seq<char>, start: int, end: int)
    requires
        is_line(text, start, end),
    ensures
        identifiers_before(text, end + 1) == with_key(
            identifiers_before(text, start),
            line_key(text.subrange(start, end)),
        ),
{
    let before = identifiers_before(text, start);
    let upto = identifiers_before(text, end + 1);
    let key = line_key(text.subrange(start, end));
    assert forall|id: Seq<char>| upto.contains(id) implies before.contains(id) || key == Some(
        id,
    ) by {
        let (s, e) = choose|s: int, e: int|
            #![trigger is_line(text, s, e)]
            is_line(text, s, e) && e < end + 1 && line_key(text.subrange(s, e)) == Some(id);
        if e >= start {
            // a line that ends within text[start..=end] is that very line
            if e < end {
                assert(text[e] == '\n');
            }
            if s < start {
                assert(text[start - 1] == '\n');
            }
            if s > start {
                assert(text[s - 1] == '\n');
            }
            assert(s == start && e == end);
        } else {
            assert(is_line(text, s, e));
            assert(named_before(text, start, id));
        }
    }
    assert forall|id: Seq<char>| before.contains(id) || key == Some(id) implies upto.contains(
        id,
    ) by {
        if before.contains(id) {
            let (s, e) = choose|s: int, e: int|
                #![trigger is_line(text, s, e)]
                is_line(text, s, e) && e < start && line_key(text.subrange(s, e)) == Some(id);
            assert(is_line(text, s, e));
            assert(named_before(text, end + 1, id));
        } else {
            assert(is_line(text, start, end));
            assert(named_before(text, end + 1, id));
        }
    }
    match key {
        Some(id) => {
            assert(upto =~= before.insert(id));
        },
        None => {
            assert(upto =~= before);
        },
    }
}

/// No line ends before index 0, and every line ends at or before the end of
/// the text.
pub proof fn lemma_identifiers_bounds(text: Seq<char>)
    ensures
        identifiers_before(text, 0) == Set::<Seq<char>>::empty(),
        identifiers_before(text, text.len() as int + 1) == identifiers(text),
{
    assert(identifiers_before(text, 0) =~= Set::<Seq<char>>::empty());
    assert forall|id: Seq<char>| identifiers(text).contains(id) implies identifiers_before(
        text,
        text.len() as int + 1,
    ).contains(id) by {
        let (s, e) = choose|s: int, e: int|
            #![trigger is_line(text, s, e)]
            is_line(text, s, e) && line_key(text.subrange(s, e)) == Some(id);
        assert(is_line(text, s, e));
        assert(named_before(text, text.len() as int + 1, id));
    }
    let bound = text.len() as int + 1;
    assert forall|id: Seq<char>| identifiers_before(text, bound).contains(id) implies identifiers(
        text,
    ).contains(id) by {
        let (s, e) = choose|s: int, e: int|
            #![trigger is_line(text, s, e)]
            is_line(text, s, e) && e < bound && line_key(text.subrange(s, e)) == Some(id);
        assert(is_line(text, s, e));
        assert(names(text, id));
    }
    assert(identifiers_before(text, text.len() as int + 1) =~= identifiers(text));
}

/// The text whose lines are `lines`: the lines in order, with a line feed
/// between each two.
pub open spec fn join_lines(lines: Seq<Seq<char>>) -> Seq<char>
    decreases lines.len(),
{
    if lines.len() == 0 {
        Seq::<char>::empty()
    } else if lines.len() == 1 {
        lines[0]
    } else {
        join_lines(lines.drop_last()) + seq!['\n'] + lines.last()
    }
}

/// `line` holds no line feed.
pub open spec fn free_of_line_feeds(line: Seq<char>) -> bool {
    forall|i: int| 0 <= i < line.len() ==> line[i] != '\n'
}

/// Member `k` of `lines` names `id`.
pub open spec fn names_at(lines: Seq<Seq<char>>, k: int, id: Seq<char>) -> bool {
    0 <= k < lines.len() && line_key(lines[k]) == Some(id)
}

/// The identifiers that the members of `lines` name.
pub open spec fn keys_of(lines: Seq<Seq<char>>) -> Set<Seq<char>> {
    Set::new(|id: Seq<char>| exists|k: int| names_at(lines, k, id))
}

/// An entry names what stands before its separator, whatever follows it.
/// Where `key` holds no separator, the line made of `key`, a separator and any
/// `value` names the identifier that stands in `key`.
pub proof fn lemma_entry_key(key: Seq<char>, value: Seq<char>)
    requires
        forall|i: int| 0 <= i ==> !separator_at(key, i),
    ensures
        line_key(key + seq![':', ' '] + value) == key_of(key),
{
    let line = key + seq![':', ' '] + value;
    let at = key.len() as int;
    assert(separator_at(line, at));
    assert forall|j: int| 0 <= j < at implies !separator_at(line, j) by {
        assert(!separator_at(key, j));
        if j + 1 < at {
            assert(line[j] == key[j] && line[j + 1] == key[j + 1]);
        } else {
            assert(line[j + 1] == ':');
        }
    }
    lemma_first_separator_found(line, at);
    assert(line.take(at) =~= key);
}

/// A quoted entry names what stands between its quotes. Where `id` is not
/// empty and holds no separator, the line made of `id` in double quotes, a
/// separator and any `value` names `id`.
pub proof fn lemma_quoted_entry_key(id: Seq<char>, value: Seq<char>)
    requires
        id.len() > 0,
        forall|i: int| 0 <= i ==> !separator_at(id, i),
    ensures
        line_key(seq!['"'] + id + seq!['"'] + seq![':', ' '] + value) == Some(id),
{
    let key = seq!['"'] + id + seq!['"'];
    assert forall|i: int| 0 <= i implies !separator_at(key, i) by {
        if 1 <= i && i + 1 < key.len() - 1 {
            assert(!separator_at(id, i - 1));
            assert(key[i] == id[i - 1] && key[i + 1] == id[i]);
        } else if i + 1 < key.len() {
            assert(key[i] == '"' || key[i + 1] == '"');
        }
    }
    lemma_entry_key(key, value);
    assert(!is_whitespace(key.first()));
    assert(!is_whitespace(key.last()));
    assert(trim_start(key) == key);
    assert(trim_end(key) == key);
    assert(key.subrange(1, key.len() - 1) =~= id);
}

/// The lines of a prefix of `text` that ends before a line feed are the lines
/// of `text` that end at or before that line feed.
proof fn lemma_identifiers_of_prefix(text: Seq<char>, n: int)
    requires
        0 <= n < text.len(),
        text[n] == '\n',
    ensures
        identifiers_before(text, n + 1) == identifiers(text.take(n)),
{
    let head = text.take(n);
    assert forall|id: Seq<char>| identifiers_before(text, n + 1).contains(id) implies identifiers(
        head,
    ).contains(id) by {
        let (s, e) = choose|s: int, e: int|
            #![trigger is_line(text, s, e)]
            is_line(text, s, e) && e < n + 1 && line_key(text.subrange(s, e)) == Some(id);
        assert(text.subrange(s, e) =~= head.subrange(s, e));
        assert(is_line(head, s, e));
    }
    assert forall|id: Seq<char>| identifiers(head).contains(id) implies identifiers_before(
        text,
        n + 1,
    ).contains(id) by {
        let (s, e) = choose|s: int, e: int|
            #![trigger is_line(head, s, e)]
            is_line(head, s, e) && line_key(head.subrange(s, e)) == Some(id);
        assert(text.subrange(s, e) =~= head.subrange(s, e));
        assert forall|i: int| s <= i < e implies text[i] != '\n' by {
            assert(head[i] == text[i]);
        }
        assert(is_line(text, s, e));
    }
    assert(identifiers_before(text, n + 1) =~= identifiers(head));
}

/// Lines that name nothing change nothing. The identifiers of a text are
/// those that its lines name, each line taken by itself: whatever stands on
/// the other lines, a line adds its identifier or, naming none, adds nothing.
pub proof fn lemma_identifiers_of_lines(lines: Seq<Seq<char>>)
    requires
        forall|k: int| 0 <= k < lines.len() ==> free_of_line_feeds(#[trigger] lines[k]),
    ensures
        identifiers(join_lines(lines)) == keys_of(lines),
    decreases lines.len(),
{
    let text = join_lines(lines);
    lemma_identifiers_bounds(text);
    if lines.len() == 0 {
        assert(is_line(text, 0, 0));
        lemma_identifiers_step(text, 0, 0);
        assert(text.subrange(0, 0) =~= text);
        lemma_no_separator(text);
        assert(keys_of(lines) =~= Set::<Seq<char>>::empty());
    } else if lines.len() == 1 {
        assert(free_of_line_feeds(lines[0]));
        assert(is_line(text, 0, text.len() as int));
        lemma_identifiers_step(text, 0, text.len() as int);
        assert(text.subrange(0, text.len() as int) =~= text);
        match line_key(text) {
            Some(id) => {
                assert(names_at(lines, 0, id));
                assert(keys_of(lines) =~= Set::<Seq<char>>::empty().insert(id));
            },
            None => {
                assert(keys_of(lines) =~= Set::<Seq<char>>::empty());
            },
        }
    } else {
        let front = lines.drop_last();
        let head = join_lines(front);
        let last = lines.last();
        let n = head.len() as int;
        assert forall|k: int| 0 <= k < front.len() implies free_of_line_feeds(
            #[trigger] front[k],
        ) by {
            assert(front[k] == lines[k]);
        }
        lemma_identifiers_of_lines(front);
        assert(free_of_line_feeds(last));
        assert(text[n] == '\n');
        assert(text.take(n) =~= head);
        assert(text.subrange(n + 1, text.len() as int) =~= last);
        assert(is_line(text, n + 1, text.len() as int));
        lemma_identifiers_of_prefix(text, n);
        lemma_identifiers_step(text, n + 1, text.len() as int);
        assert forall|id: Seq<char>| keys_of(lines).contains(id) implies keys_of(front).contains(
            id,
        ) || line_key(last) == Some(id) by {
            let k = choose|k: int| names_at(lines, k, id);
            if k < front.len() {
                assert(names_at(front, k, id));
            }
        }
        assert forall|id: Seq<char>| keys_of(front).contains(id) || line_key(last) == Some(
            id,
        ) implies keys_of(lines).contains(id) by {
            if keys_of(front).contains(id) {
                let k = choose|k: int| names_at(front, k, id);
                assert(names_at(lines, k, id));
            } else {
                assert(names_at(lines, lines.len() - 1, id));
            }
        }
        match line_key(last) {
            Some(id) => {
                assert(keys_of(lines) =~= keys_of(front).insert(id));
            },
            None => {
                assert(keys_of(lines) =~= keys_of(front));
            },
        }
    }
}

/// Whether `c` is white space.
pub fn whitespace(c: char) -> (r: bool)
    ensures
        r == is_whitespace(c),
{
    let n: u32 = c as u32;
    (0x09 <= n && n <= 0x0D) || n == 0x20 || n == 0x85 || n == 0xA0 || n == 0x1680 || (0x2000 <= n
        && n <= 0x200A) || n == 0x2028 || n == 0x2029 || n == 0x202F || n == 0x205F || n == 0x3000
}

/// The characters of `text`, in order.
pub fn characters(text: &str) -> (chars: Vec<char>)
    ensures
        chars@ == text@,
{
    let mut chars: Vec<char> = Vec::new();
    for c in it: text.chars()
        invariant
            chars@ == it.seq().take(it.index()),
            it.seq() == text@,
    {
        chars.push(c);
    }
    chars
}

/// Where the first separator of `chars[start..end]` begins, as an index
/// into `chars`.
pub fn find_separator(chars: &Vec<char>, start: usize, end: usize) -> (found: Option<usize>)
    requires
        start <= end <= chars@.len(),
    ensures
        found matches Some(at) ==> start <= at < end && first_separator(
            chars@.subrange(start as int, end as int),
        ) == Some(at - start),
        found is None ==> first_separator(chars@.subrange(start as int, end as int)) is None,
{
    let ghost line = chars@.subrange(start as int, end as int);
    let mut i: usize = start;
    while i < end && i + 1 < end
        invariant
            start <= i <= end <= chars@.len(),
            line == chars@.subrange(start as int, end as int),
            forall|j: int| 0 <= j < i - start ==> !separator_at(line, j),
        decreases end - i,
    {
        if chars[i] == ':' && chars[i + 1] == ' ' {
            proof {
                assert(separator_at(line, i - start));
                lemma_first_separator_found(line, i - start);
            }
            return Some(i);
        }
        i += 1;
    }
    proof {
        lemma_no_separator(line);
    }
    None
}

/// The bounds within `chars` of `chars[start..end]` without the white space at
/// either end.
pub fn trim_bounds(chars: &Vec<char>, start: usize, end: usize) -> (bounds: (usize, usize))
    requires
        start <= end <= chars@.len(),
    ensures
        start <= bounds.0 <= bounds.1 <= end,
        chars@.subrange(bounds.0 as int, bounds.1 as int) == trim(
            chars@.subrange(start as int, end as int),
        ),
{
    let mut from: usize = start;
    while from < end && whitespace(chars[from])
        invariant
            start <= from <= end <= chars@.len(),
            trim_start(chars@.subrange(start as int, end as int)) == trim_start(
                chars@.subrange(from as int, end as int),
            ),
        decreases end - from,
    {
        proof {
            assert(chars@.subrange(from as int, end as int).drop_first() =~= chars@.subrange(
                from + 1,
                end as int,
            ));
        }
        from += 1;
    }
    let mut to: usize = end;
    while from < to && whitespace(chars[to - 1])
        invariant
            start <= from <= to <= end <= chars@.len(),
            trim(chars@.subrange(start as int, end as int)) == trim_end(
                chars@.subrange(from as int, to as int),
            ),
        decreases to - from,
    {
        proof {
            assert(chars@.subrange(from as int, to as int).drop_last() =~= chars@.subrange(
                from as int,
                to - 1,
            ));
        }
        to -= 1;
    }
    (from, to)
}

/// The bounds within `chars` of the identifier that the line
/// `chars[start..end]` names, if it names one.
pub fn key_bounds(chars: &Vec<char>, start: usize, end: usize) -> (bounds: Option<(usize, usize)>)
    requires
        start <= end <= chars@.len(),
    ensures
        bounds matches Some((from, to)) ==> start <= from < to <= end && line_key(
            chars@.subrange(start as int, end as int),
        ) == Some(chars@.subrange(from as int, to as int)),
        bounds is None ==> line_key(chars@.subrange(start as int, end as int)) is None,
{
    let ghost line = chars@.subrange(start as int, end as int);
    match find_separator(chars, start, end) {
        Some(at) => {
            assert(line.take(at - start) =~= chars@.subrange(start as int, at as int));
            let (from, to) = trim_bounds(chars, start, at);
            let ghost trimmed = chars@.subrange(from as int, to as int);
            if to - from >= 2 && chars[from] == '"' && chars[to - 1] == '"' {
                assert(trimmed.subrange(1, trimmed.len() - 1) =~= chars@.subrange(
                    from + 1,
                    to - 1,
                ));
                if to - from > 2 {
                    Some((from + 1, to - 1))
                } else {
                    None
                }
            } else if from < to {
                Some((from, to))
            } else {
                None
            }
        },
        None => None,
    }
}

/// The identifiers that the lines of `text` name. One that several lines name
/// may occur several times.
pub fn scan(text: &str) -> (ids: Vec<String>)
    ensures
        view_set(ids@) == identifiers(text@),
{
    let chars = characters(text);
    let mut ids: Vec<String> = Vec::new();
    let mut start: usize = 0;
    let mut i: usize = 0;
    proof {
        lemma_identifiers_bounds(text@);
        assert(view_set(ids@) =~= Set::<Seq<char>>::empty());
    }
    while i < chars.len()
        invariant
            chars@ == text@,
            start <= i <= chars@.len(),
            start == 0 || chars@[start - 1] == '\n',
            forall|j: int| start <= j < i ==> chars@[j] != '\n',
            view_set(ids@) == identifiers_before(text@, start as int),
        decreases chars@.len() - i,
    {
        if chars[i] == '\n' {
            proof {
                lemma_identifiers_step(text@, start as int, i as int);
            }
            collect_key(text, &chars, start, i, &mut ids);
            start = i + 1;
        }
        i += 1;
    }
    proof {
        lemma_identifiers_step(text@, start as int, i as int);
    }
    collect_key(text, &chars, start, i, &mut ids);
    ids
}

/// Appends to `ids` the identifier that the line `text[start..end]` names, if
/// it names one.
fn collect_key(text: &str, chars: &Vec<char>, start: usize, end: usize, ids: &mut Vec<String>)
    requires
        chars@ == text@,
        start <= end <= chars@.len(),
    ensures
        view_set(final(ids)@) == with_key(
            view_set(old(ids)@),
            line_key(text@.subrange(start as int, end as int)),
        ),
{
    match key_bounds(chars, start, end) {
        Some((from, to)) => {
            let id = text.substring_char(from, to).to_owned();
            ids.push(id);
            proof {
                let before = old(ids)@;
                assert forall|x: Seq<char>| view_set(ids@).contains(x) implies view_set(
                    before,
                ).insert(id@).contains(x) by {
                    let k = choose|k: int| 0 <= k < ids@.len() && #[trigger] ids@[k]@ == x;
                    if k < before.len() {
                        assert(before[k]@ == x);
                    }
                }
                assert forall|x: Seq<char>| view_set(before).insert(id@).contains(
                    x,
                ) implies view_set(ids@).contains(x) by {
                    if x == id@ {
                        assert(ids@[before.len() as int]@ == x);
                    } else {
                        let k = choose|k: int| 0 <= k < before.len() && #[trigger] before[k]@ == x;
                        assert(ids@[k]@ == x);
                    }
                }
                assert(view_set(ids@) =~= view_set(before).insert(id@));
            }
        },
        None => {},
    }
}

} // verus!
