//! The text of a server configuration: a first look at its three list
//! values, and putting new values in their lines.
//!
//! A line is found by its key at the start of a line and replaced up to the
//! end of the line, which is the end of the text, a line feed, or a carriage
//! return. The line end itself is no part of the line, so a text keeps its
//! line ends, whichever it has. Finding the line is the work of the regex
//! engine; this module states what becomes of the text for the place that
//! was found.

use crate::pattern::{first_replaced, leftmost_match, pattern_accepted, splice, Pattern};
use crate::text::{cut, free_of, lemma_cut, lemma_cut_concat, lemma_cut_extend, lines, pieces};
use crate::tokens::occurrences;
use vstd::prelude::*;

verus! {

/// The line that holds the workshop items.
pub const WORKSHOP_ITEMS_LINE: &'static str =
    r"(?mR)^WorkshopItems=(?P<workshop_items>.*);{0,1}$";

/// The line that holds the mods.
pub const MODS_LINE: &'static str = r"(?mR)^Mods=(?P<mods>.*);{0,1}$";

/// The line that holds the maps.
pub const MAP_LINE: &'static str = r"(?mR)^Map=(?P<maps>.*);{0,1}$";

/// How the line of the workshop items begins.
pub const WORKSHOP_ITEMS_KEY: &'static str = "WorkshopItems=";

/// How the line of the mods begins.
pub const MODS_KEY: &'static str = "Mods=";

/// How the line of the maps begins.
pub const MAP_KEY: &'static str = "Map=";

/// `document` with the first line that `line` matches replaced by `key`
/// and `value`; `document` itself where no line matches.
pub open spec fn with_line(
    document: Seq<char>,
    line: Seq<char>,
    key: Seq<char>,
    value: Seq<char>,
) -> Seq<char> {
    first_replaced(line, document, key + value)
}

/// The text of an optional string slice.
pub open spec fn optional_text(text: Option<&str>) -> Option<Seq<char>> {
    match text {
        Some(text) => Some(text@),
        None => None,
    }
}

/// `document` with the workshop items set, then the mods, then the maps if
/// there are any to set. Each step works on what the step before it made.
pub open spec fn patched(
    document: Seq<char>,
    workshop_items: Seq<char>,
    mods: Seq<char>,
    maps: Option<Seq<char>>,
) -> Seq<char> {
    let with_items = with_line(
        document,
        WORKSHOP_ITEMS_LINE@,
        WORKSHOP_ITEMS_KEY@,
        workshop_items,
    );
    let with_mods = with_line(with_items, MODS_LINE@, MODS_KEY@, mods);
    match maps {
        Some(maps) => with_line(with_mods, MAP_LINE@, MAP_KEY@, maps),
        None => with_mods,
    }
}

/// The maps are set last, on what setting the workshop items and the mods
/// made; without maps that is the result.
pub proof fn lemma_patch_steps(
    document: Seq<char>,
    workshop_items: Seq<char>,
    mods: Seq<char>,
    maps: Seq<char>,
)
    ensures
        patched(document, workshop_items, mods, None) == with_line(
            with_line(document, WORKSHOP_ITEMS_LINE@, WORKSHOP_ITEMS_KEY@, workshop_items),
            MODS_LINE@,
            MODS_KEY@,
            mods,
        ),
        patched(document, workshop_items, mods, Some(maps)) == with_line(
            patched(document, workshop_items, mods, None),
            MAP_LINE@,
            MAP_KEY@,
            maps,
        ),
{
}

/// A document that holds none of the three lines is left as it is.
pub proof fn lemma_patch_without_lines(
    document: Seq<char>,
    workshop_items: Seq<char>,
    mods: Seq<char>,
    maps: Option<Seq<char>>,
)
    ensures
        leftmost_match(WORKSHOP_ITEMS_LINE@, document) is None && leftmost_match(
            MODS_LINE@,
            document,
        ) is None && leftmost_match(MAP_LINE@, document) is None ==> patched(
            document,
            workshop_items,
            mods,
            maps,
        ) == document,
{
}

/// A replacement inside one line touches that line only. Where the
/// replaced range and the replacement hold no line feed, the text has as
/// many lines as before, every other line stands where it stood, unchanged,
/// and the line of the range is what stood before the range in it, the
/// replacement, and what stood behind the range in it. A range that is a
/// whole line makes the replacement the line.
pub proof fn lemma_splice_within_a_line(
    document: Seq<char>,
    start: nat,
    end: nat,
    replacement: Seq<char>,
)
    requires
        start <= end <= document.len(),
        free_of(document.subrange(start as int, end as int), '\n'),
        free_of(replacement, '\n'),
    ensures
        ({
            let replaced = splice(document, Some((start, end)), replacement);
            let at = lines(document.take(start as int)).len() - 1;
            let before = lines(document.take(start as int)).last();
            let behind = lines(document.skip(end as int)).first();
            &&& lines(replaced).len() == lines(document).len()
            &&& 0 <= at < lines(document).len()
            &&& lines(document)[at] == before + document.subrange(start as int, end as int)
                + behind
            &&& lines(replaced)[at] == before + replacement + behind
            &&& forall|j: int|
                0 <= j < lines(document).len() && j != at ==> #[trigger] lines(replaced)[j]
                    == lines(document)[j]
        }),
{
    let head = document.take(start as int);
    let old_part = document.subrange(start as int, end as int);
    let tail = document.skip(end as int);
    let replaced = splice(document, Some((start, end)), replacement);
    assert(document =~= head + old_part + tail);
    assert(replaced =~= head + replacement + tail);
    lemma_cut(head, '\n');
    lemma_cut(tail, '\n');
    lemma_cut_extend(head, old_part, '\n');
    lemma_cut_extend(head, replacement, '\n');
    lemma_cut_concat(head + old_part, tail, '\n');
    lemma_cut_concat(head + replacement, tail, '\n');
    let first_lines = cut(head, '\n').drop_last();
    let before = cut(head, '\n').last();
    let behind = cut(tail, '\n').first();
    let rest = cut(tail, '\n').drop_first();
    assert(cut(head + old_part, '\n').drop_last() =~= first_lines);
    assert(cut(head + replacement, '\n').drop_last() =~= first_lines);
    assert(lines(document) =~= first_lines.push(before + old_part + behind) + rest);
    assert(lines(replaced) =~= first_lines.push(before + replacement + behind) + rest);
}

/// A replacement of a whole line makes the replacement the line. Where the
/// replaced range begins at the start of a line, ends at a line feed or at
/// the end of the text, and neither it nor the replacement holds a line feed,
/// the lines of the text are those it had, with the replacement in the place
/// of the one line.
pub proof fn lemma_splice_of_a_whole_line(
    document: Seq<char>,
    start: nat,
    end: nat,
    replacement: Seq<char>,
)
    requires
        start <= end <= document.len(),
        start == 0 || document[start - 1] == '\n',
        end == document.len() || document[end as int] == '\n',
        free_of(document.subrange(start as int, end as int), '\n'),
        free_of(replacement, '\n'),
    ensures
        ({
            let at = lines(document.take(start as int)).len() - 1;
            &&& 0 <= at < lines(document).len()
            &&& lines(document)[at] == document.subrange(start as int, end as int)
            &&& lines(splice(document, Some((start, end)), replacement)) == lines(
                document,
            ).update(at, replacement)
        }),
{
    let head = document.take(start as int);
    let tail = document.skip(end as int);
    lemma_splice_within_a_line(document, start, end, replacement);
    assert(lines(head).last() =~= Seq::<char>::empty()) by {
        if start > 0 {
            assert(head.last() == document[start - 1]);
        }
    }
    assert(lines(tail).first() =~= Seq::<char>::empty()) by {
        if end < document.len() {
            let feed = seq!['\n'];
            assert(tail =~= feed + tail.drop_first());
            lemma_cut_concat(feed, tail.drop_first(), '\n');
            lemma_cut(tail.drop_first(), '\n');
            assert(feed.drop_last() =~= Seq::<char>::empty());
            assert(cut(feed.drop_last(), '\n') =~= seq![Seq::<char>::empty()]);
            assert(feed.last() == '\n');
            assert(cut(feed, '\n') =~= seq![Seq::<char>::empty(), Seq::<char>::empty()]);
        }
    }
    let replaced = splice(document, Some((start, end)), replacement);
    let at = lines(head).len() - 1;
    assert(lines(replaced)[at] =~= replacement);
    assert(lines(document)[at] =~= document.subrange(start as int, end as int));
    assert(lines(replaced) =~= lines(document).update(at, replacement));
}

/// Setting a line touches one line only. Where the place that the engine
/// found and the new line hold no line feed, the text has as many lines as
/// before and every other line stands where it stood, unchanged. Where that
/// place is a whole line, the new line stands in its place. Where nothing
/// was found the text is unchanged.
pub proof fn lemma_with_line_touches_one_line(
    document: Seq<char>,
    line: Seq<char>,
    key: Seq<char>,
    value: Seq<char>,
)
    ensures
        match leftmost_match(line, document) {
            Some((start, end)) => start <= end <= document.len() && free_of(
                document.subrange(start as int, end as int),
                '\n',
            ) && free_of(key + value, '\n') ==> {
                let updated = with_line(document, line, key, value);
                let at = lines(document.take(start as int)).len() - 1;
                &&& lines(updated).len() == lines(document).len()
                &&& 0 <= at < lines(document).len()
                &&& lines(updated)[at] == lines(document.take(start as int)).last() + (key
                    + value) + lines(document.skip(end as int)).first()
                &&& forall|j: int|
                    0 <= j < lines(document).len() && j != at ==> #[trigger] lines(updated)[j]
                        == lines(document)[j]
                &&& (start == 0 || document[start - 1] == '\n') && (end == document.len()
                    || document[end as int] == '\n') ==> lines(updated) == lines(
                    document,
                ).update(at, key + value)
            },
            None => with_line(document, line, key, value) == document,
        },
{
    if let Some((start, end)) = leftmost_match(line, document) {
        if start <= end <= document.len() && free_of(
            document.subrange(start as int, end as int),
            '\n',
        ) && free_of(key + value, '\n') {
            lemma_splice_within_a_line(document, start, end, key + value);
            if (start == 0 || document[start - 1] == '\n') && (end == document.len()
                || document[end as int] == '\n') {
                lemma_splice_of_a_whole_line(document, start, end, key + value);
            }
        }
    }
}

/// Puts list values into the text of a server configuration.
pub struct ConfigPatcher {
    workshop_items: Pattern,
    mods: Pattern,
    map: Pattern,
}

impl ConfigPatcher {
    #[verifier::type_invariant]
    spec fn well_formed(self) -> bool {
        &&& self.workshop_items@ == WORKSHOP_ITEMS_LINE@
        &&& self.mods@ == MODS_LINE@
        &&& self.map@ == MAP_LINE@
    }

    /// Prepares the three line patterns. There is no patcher if the regex
    /// engine turns one of them down.
    pub fn new() -> (patcher: Option<ConfigPatcher>)
        ensures
            patcher is Some <==> pattern_accepted(WORKSHOP_ITEMS_LINE@) && pattern_accepted(
                MODS_LINE@,
            ) && pattern_accepted(MAP_LINE@),
    {
        let workshop_items = Pattern::new(WORKSHOP_ITEMS_LINE);
        let mods = Pattern::new(MODS_LINE);
        let map = Pattern::new(MAP_LINE);
        match (workshop_items, mods, map) {
            (Some(workshop_items), Some(mods), Some(map)) => Some(
                ConfigPatcher { workshop_items, mods, map },
            ),
            _ => None,
        }
    }

    /// Sets the line of one key.
    fn set_line(line: &Pattern, document: &str, key: &str, value: &str) -> (updated: String)
        ensures
            updated@ == with_line(document@, line@, key@, value@),
    {
        let mut replacement = key.to_owned();
        replacement.append(value);
        line.replace_first(document, replacement.as_str())
    }

    /// The configuration text with the `WorkshopItems` and `Mods` lines set
    /// to the given values, and the `Map` line too where `maps` is given.
    /// Without `maps` the `Map` line stays as it is.
    pub fn patch(
        &self,
        document: &str,
        workshop_items_string: &str,
        mods_string: &str,
        maps_string: Option<&str>,
    ) -> (updated: String)
        ensures
            updated@ == patched(
                document@,
                workshop_items_string@,
                mods_string@,
                optional_text(maps_string),
            ),
    {
        proof {
            use_type_invariant(self);
        }
        let with_items = Self::set_line(
            &self.workshop_items,
            document,
            WORKSHOP_ITEMS_KEY,
            workshop_items_string,
        );
        let with_mods = Self::set_line(&self.mods, with_items.as_str(), MODS_KEY, mods_string);
        match maps_string {
            Some(maps_string) => Self::set_line(
                &self.map,
                with_mods.as_str(),
                MAP_KEY,
                maps_string,
            ),
            None => with_mods,
        }
    }
}

/// A key that the server configuration lacks.
#[derive(Clone, Copy, Debug, PartialEq, Eq, Structural)]
pub enum MissingKey {
    /// `WorkshopItems`
    WorkshopItems,
    /// `Mods`
    Mods,
    /// `Map`
    Maps,
}

/// How many entries each of the three list values holds.
#[derive(Clone, Copy, Debug, PartialEq, Eq, Structural)]
pub struct EntryCounts {
    pub workshop_items: usize,
    pub mods: usize,
    pub maps: usize,
}

/// The number of pieces into which its semicolons cut `value`.
pub open spec fn entry_count(value: Seq<char>) -> nat {
    pieces(value).len()
}

/// `count`, as far as a `usize` can hold it.
pub open spec fn capped(count: nat) -> usize {
    if count <= usize::MAX {
        count as usize
    } else {
        usize::MAX
    }
}

/// Counts the pieces into which its semicolons cut `value`.
pub fn count_entries(value: &str) -> (count: usize)
    ensures
        count == capped(entry_count(value@)),
{
    broadcast use vstd::string::group_string_axioms;

    let total = value.unicode_len();
    let mut semicolons: usize = 0;
    assert(value@.take(0) =~= Seq::<char>::empty());
    for c in it: value.chars()
        invariant
            it.seq() == value@,
            value@.len() == total,
            semicolons + 1 == entry_count(value@.take(it.index())),
            semicolons <= it.index(),
    {
        assert(value@.take(it.index() + 1).drop_last() =~= value@.take(it.index()));
        if c == ';' {
            semicolons = semicolons + 1;
        }
    }
    assert(value@.take(value@.len() as int) =~= value@);
    if semicolons < usize::MAX {
        semicolons + 1
    } else {
        usize::MAX
    }
}

/// A value has one piece more than it has semicolons.
pub proof fn lemma_entry_count(value: Seq<char>)
    ensures
        entry_count(value) == occurrences(value, ';') + 1,
    decreases value.len(),
{
    reveal(Seq::filter);
    if value.len() > 0 {
        lemma_entry_count(value.drop_last());
    }
}

/// What the first look at a server configuration finds: how many entries
/// its three list values hold, or the first of `WorkshopItems`, `Mods` and
/// `Map` that it lacks.
pub open spec fn checked_counts(
    workshop_items: Option<Seq<char>>,
    mods: Option<Seq<char>>,
    maps: Option<Seq<char>>,
) -> Result<EntryCounts, MissingKey> {
    if workshop_items is None {
        Err(MissingKey::WorkshopItems)
    } else if mods is None {
        Err(MissingKey::Mods)
    } else if maps is None {
        Err(MissingKey::Maps)
    } else {
        Ok(
            EntryCounts {
                workshop_items: capped(entry_count(workshop_items.unwrap())),
                mods: capped(entry_count(mods.unwrap())),
                maps: capped(entry_count(maps.unwrap())),
            },
        )
    }
}

/// Looks at the three list values of a server configuration, each given as
/// the configuration holds it, or `None` where it lacks the key.
pub fn initial_check(
    workshop_items: Option<&str>,
    mods: Option<&str>,
    maps: Option<&str>,
) -> (found: Result<EntryCounts, MissingKey>)
    ensures
        found == checked_counts(
            optional_text(workshop_items),
            optional_text(mods),
            optional_text(maps),
        ),
{
    let workshop_items = match workshop_items {
        Some(value) => count_entries(value),
        None => { return Err(MissingKey::WorkshopItems); },
    };
    let mods = match mods {
        Some(value) => count_entries(value),
        None => { return Err(MissingKey::Mods); },
    };
    let maps = match maps {
        Some(value) => count_entries(value),
        None => { return Err(MissingKey::Maps); },
    };
    Ok(EntryCounts { workshop_items, mods, maps })
}

} // verus!
