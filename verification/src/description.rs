//! Reads the mod names and the map folders that a workshop item declares in
//! its free-text description.
//!
//! A declaration is `Mod ID: <value>` or `Map Folder: <value>`, where the
//! value is a run of letters, digits, spaces and `()[]_-.,`. Each pattern is
//! searched on its own; what it finds is trimmed at the end and a value
//! that was seen before is dropped.
//!
//! Finding the declarations is the work of the regex engine. This module
//! states how the values are made of what the engine captured.

use crate::pattern::{group_captures, pattern_accepted, Pattern};
use crate::text::{contains_text, trim_end, trim_end_of};
use crate::tokens::{distinct, lemma_distinct_contains, lemma_distinct_no_duplicates};
use vstd::prelude::*;

verus! {

/// The pattern of a mod name declaration.
pub const MOD_NAME_PATTERN: &'static str =
    r"(?m)Mod\sID:\s(?P<mod_name>[ a-zA-Z0-9()\[\]_\-\(\).,]+)(\\r\\n)*";

/// The group of `MOD_NAME_PATTERN` that holds the name.
pub const MOD_NAME_GROUP: &'static str = "mod_name";

/// The pattern of a map folder declaration.
pub const MAP_FOLDER_PATTERN: &'static str =
    r"(?m)Map\sFolder:\s(?P<map_folder>[ a-zA-Z0-9()\[\]_\-\(\).,]+)(\\r\\n)*";

/// The group of `MAP_FOLDER_PATTERN` that holds the folder.
pub const MAP_FOLDER_GROUP: &'static str = "map_folder";

/// The test "the group took part in the match".
pub open spec fn took_part() -> spec_fn(Option<Seq<char>>) -> bool {
    |capture: Option<Seq<char>>| capture is Some
}

/// The captured text without its trailing whitespace.
pub open spec fn trimmed() -> spec_fn(Option<Seq<char>>) -> Seq<char> {
    |capture: Option<Seq<char>>| trim_end(capture.unwrap())
}

/// The values that a list of captures declares: the captured texts,
/// trimmed at the end, each one once, in the order of first appearance.
pub open spec fn declared_values(captures: Seq<Option<Seq<char>>>) -> Seq<Seq<char>> {
    distinct(captures.filter(took_part()).map_values(trimmed()))
}

/// The mod names that `description` declares.
pub open spec fn declared_mod_names(description: Seq<char>) -> Seq<Seq<char>> {
    declared_values(group_captures(MOD_NAME_PATTERN@, MOD_NAME_GROUP@, description))
}

/// The map folders that `description` declares.
pub open spec fn declared_map_folders(description: Seq<char>) -> Seq<Seq<char>> {
    declared_values(group_captures(MAP_FOLDER_PATTERN@, MAP_FOLDER_GROUP@, description))
}

/// One more capture adds its trimmed text, unless it is there already or the
/// group took no part.
pub proof fn lemma_declared_values_push(
    captures: Seq<Option<Seq<char>>>,
    capture: Option<Seq<char>>,
)
    ensures
        declared_values(captures.push(capture)) == match capture {
            Some(text) => if declared_values(captures).contains(trim_end(text)) {
                declared_values(captures)
            } else {
                declared_values(captures).push(trim_end(text))
            },
            None => declared_values(captures),
        },
{
    captures.lemma_filter_push(capture, took_part());
    if let Some(text) = capture {
        let before = captures.filter(took_part()).map_values(trimmed());
        let after = captures.push(capture).filter(took_part()).map_values(trimmed());
        assert(after =~= before.push(trim_end(text)));
        assert(after.drop_last() =~= before);
    }
}

/// No captures declare no values.
pub proof fn lemma_declared_values_empty()
    ensures
        declared_values(Seq::empty()) == Seq::<Seq<char>>::empty(),
{
    reveal(Seq::filter);
    assert(Seq::<Option<Seq<char>>>::empty().filter(took_part()).map_values(trimmed())
        =~= Seq::<Seq<char>>::empty());
}

/// Declared values hold no value twice, and none where nothing was captured.
/// A capture in which the group took part declares its trimmed text.
pub proof fn lemma_declared_values(captures: Seq<Option<Seq<char>>>)
    ensures
        declared_values(captures).no_duplicates(),
        captures.len() == 0 ==> declared_values(captures).len() == 0,
        forall|i: int|
            0 <= i < captures.len() && (#[trigger] captures[i]) is Some ==> declared_values(
                captures,
            ).contains(trim_end(captures[i].unwrap())),
        forall|value: Seq<char>|
            declared_values(captures).contains(value) ==> exists|i: int|
                0 <= i < captures.len() && (#[trigger] captures[i]) is Some && trim_end(
                    captures[i].unwrap(),
                ) == value,
{
    let taken = captures.filter(took_part());
    let values = taken.map_values(trimmed());
    lemma_distinct_no_duplicates(values);
    if captures.len() == 0 {
        lemma_declared_values_empty();
    }
    assert forall|i: int| 0 <= i < captures.len() && (#[trigger] captures[i]) is Some implies
        declared_values(captures).contains(trim_end(captures[i].unwrap())) by {
        captures.lemma_filter_contains(took_part(), i);
        let k = choose|k: int| 0 <= k < taken.len() && taken[k] == captures[i];
        assert(values[k] == trim_end(captures[i].unwrap()));
        lemma_distinct_contains(values, trim_end(captures[i].unwrap()));
    }
    assert forall|value: Seq<char>| declared_values(captures).contains(value) implies exists|
        i: int,
    |
        0 <= i < captures.len() && (#[trigger] captures[i]) is Some && trim_end(
            captures[i].unwrap(),
        ) == value by {
        lemma_distinct_contains(values, value);
        let k = choose|k: int| 0 <= k < values.len() && values[k] == value;
        assert(taken.contains(taken[k]));
        captures.lemma_filter_contains_rev(took_part(), taken[k]);
        captures.lemma_filter_pred(took_part(), k);
        let i = choose|i: int| 0 <= i < captures.len() && captures[i] == taken[k];
        assert(captures[i] is Some && trim_end(captures[i].unwrap()) == value);
    }
}

/// Captures declare a value exactly if the group took part in one of them.
pub proof fn lemma_declares_something(captures: Seq<Option<Seq<char>>>)
    ensures
        declared_values(captures).len() > 0 <==> exists|i: int|
            0 <= i < captures.len() && (#[trigger] captures[i]) is Some,
{
    lemma_declared_values(captures);
    let values = declared_values(captures);
    if values.len() > 0 {
        assert(values.contains(values[0]));
    }
    if exists|i: int| 0 <= i < captures.len() && (#[trigger] captures[i]) is Some {
        let i = choose|i: int| 0 <= i < captures.len() && (#[trigger] captures[i]) is Some;
        assert(values.contains(trim_end(captures[i].unwrap())));
    }
}

/// The values that `captures` declares.
pub fn values_of(captures: &Vec<Option<String>>) -> (values: Vec<String>)
    ensures
        values.deep_view() == declared_values(captures.deep_view()),
{
    let mut values: Vec<String> = Vec::new();
    let mut i: usize = 0;
    proof {
        lemma_declared_values_empty();
        assert(captures.deep_view().take(0) =~= Seq::<Option<Seq<char>>>::empty());
        assert(values.deep_view() =~= Seq::<Seq<char>>::empty());
    }
    while i < captures.len()
        invariant
            i <= captures.len(),
            values.deep_view() == declared_values(captures.deep_view().take(i as int)),
        decreases captures.len() - i,
    {
        let ghost before = values.deep_view();
        proof {
            lemma_declared_values_push(
                captures.deep_view().take(i as int),
                captures.deep_view()[i as int],
            );
            assert(captures.deep_view().take(i + 1) =~= captures.deep_view().take(i as int).push(
                captures.deep_view()[i as int],
            ));
        }
        match &captures[i] {
            Some(text) => {
                let value = trim_end_of(text.as_str()).to_owned();
                if !contains_text(&values, &value) {
                    values.push(value);
                    assert(values.deep_view() =~= before.push(trim_end(text@)));
                }
            },
            None => {},
        }
        i = i + 1;
    }
    assert(captures.deep_view().take(captures.len() as int) =~= captures.deep_view());
    values
}

/// The two compiled declarations.
pub struct DescriptionParser {
    mod_name: Pattern,
    map_folder: Pattern,
}

impl DescriptionParser {
    #[verifier::type_invariant]
    spec fn well_formed(self) -> bool {
        &&& self.mod_name@ == MOD_NAME_PATTERN@
        &&& self.map_folder@ == MAP_FOLDER_PATTERN@
    }

    /// Prepares both patterns. There is no parser if the regex engine
    /// turns one of them down.
    pub fn new() -> (parser: Option<DescriptionParser>)
        ensures
            parser is Some <==> pattern_accepted(MOD_NAME_PATTERN@) && pattern_accepted(
                MAP_FOLDER_PATTERN@,
            ),
    {
        match Pattern::new(MOD_NAME_PATTERN) {
            Some(mod_name) => match Pattern::new(MAP_FOLDER_PATTERN) {
                Some(map_folder) => Some(DescriptionParser { mod_name, map_folder }),
                None => None,
            },
            None => None,
        }
    }

    /// The mod names that `description` declares.
    pub fn mod_names(&self, description: &str) -> (names: Vec<String>)
        ensures
            names.deep_view() == declared_mod_names(description@),
    {
        proof {
            use_type_invariant(self);
        }
        values_of(&self.mod_name.captures(MOD_NAME_GROUP, description))
    }

    /// The map folders that `description` declares.
    pub fn map_folders(&self, description: &str) -> (folders: Vec<String>)
        ensures
            folders.deep_view() == declared_map_folders(description@),
    {
        proof {
            use_type_invariant(self);
        }
        values_of(&self.map_folder.captures(MAP_FOLDER_GROUP, description))
    }
}

} // verus!
