//! The three list values of the server configuration, `WorkshopItems`,
//! `Mods` and `Map`: how they are made of the resolved mods and of what the
//! operator adds and excludes.

use crate::config::ConfigWorkshopSettings;
use crate::steam_api_client::{ModData, ResolvedItem};
use crate::text::{
    decimals, lemma_id_list_reads_back, lemma_list_reads_back, pieces, semicolon_free,
    terminated_list, write_id_list, write_list,
};
use crate::tokens::{
    lemma_added_token_appears_once, lemma_excluded_token_is_not_kept, merge_ids, merge_texts,
    merged, occurrences, same_as, without,
};
use vstd::prelude::*;

verus! {

/// The map of the base game. It closes every map list.
pub const DEFAULT_MAP: &'static str = "Muldraugh, KY";

/// The identifier of an item, as a function.
pub open spec fn id_of() -> spec_fn(ResolvedItem) -> u64 {
    |item: ResolvedItem| item.id
}

/// The mod names of an item, as a function.
pub open spec fn names_of() -> spec_fn(ResolvedItem) -> Seq<Seq<char>> {
    |item: ResolvedItem| item.names
}

/// The map folders of an item, as a function.
pub open spec fn map_folders_of() -> spec_fn(ResolvedItem) -> Seq<Seq<char>> {
    |item: ResolvedItem| item.map_folders
}

/// The identifiers of `mods`, in order.
pub open spec fn item_ids(mods: Seq<ResolvedItem>) -> Seq<u64> {
    mods.map_values(id_of())
}

/// The mod names of `mods`: those of the first item, then those of the
/// second, and so on.
pub open spec fn mod_names(mods: Seq<ResolvedItem>) -> Seq<Seq<char>> {
    mods.map_values(names_of()).flatten()
}

/// The map folders of `mods`, item by item.
pub open spec fn map_folders(mods: Seq<ResolvedItem>) -> Seq<Seq<char>> {
    mods.map_values(map_folders_of()).flatten()
}

/// The entries of the `WorkshopItems` value.
pub open spec fn workshop_item_tokens(
    mods: Seq<ResolvedItem>,
    added: Seq<u64>,
    excluded: Seq<u64>,
) -> Seq<u64> {
    merged(item_ids(mods), added, excluded)
}

/// The entries of the `Mods` value.
pub open spec fn mod_tokens(
    mods: Seq<ResolvedItem>,
    added: Seq<Seq<char>>,
    excluded: Seq<Seq<char>>,
) -> Seq<Seq<char>> {
    merged(mod_names(mods), added, excluded)
}

/// The entries of the `Map` value: the merged map folders, then the map of
/// the base game, whether or not it is among them already.
pub open spec fn map_tokens(
    mods: Seq<ResolvedItem>,
    added: Seq<Seq<char>>,
    excluded: Seq<Seq<char>>,
) -> Seq<Seq<char>> {
    merged(map_folders(mods), added, excluded).push(DEFAULT_MAP@)
}

/// The `WorkshopItems` value: its entries in decimal, each followed by a
/// semicolon.
pub open spec fn workshop_items_text(
    mods: Seq<ResolvedItem>,
    added: Seq<u64>,
    excluded: Seq<u64>,
) -> Seq<char> {
    terminated_list(decimals(workshop_item_tokens(mods, added, excluded)))
}

/// The `Mods` value: its entries, each followed by a semicolon.
pub open spec fn mods_text(
    mods: Seq<ResolvedItem>,
    added: Seq<Seq<char>>,
    excluded: Seq<Seq<char>>,
) -> Seq<char> {
    terminated_list(mod_tokens(mods, added, excluded))
}

/// The `Map` value: its entries, each followed by a semicolon.
pub open spec fn maps_text(
    mods: Seq<ResolvedItem>,
    added: Seq<Seq<char>>,
    excluded: Seq<Seq<char>>,
) -> Seq<char> {
    terminated_list(map_tokens(mods, added, excluded))
}

/// The identifiers of `mods_data`, in order.
pub fn ids_of_mods(mods_data: &Vec<ModData>) -> (ids: Vec<u64>)
    ensures
        ids@ == item_ids(mods_data.deep_view()),
{
    let mut ids: Vec<u64> = Vec::new();
    let mut i: usize = 0;
    while i < mods_data.len()
        invariant
            i <= mods_data.len(),
            ids@ == item_ids(mods_data.deep_view().take(i as int)),
        decreases mods_data.len() - i,
    {
        ids.push(mods_data[i].mod_id);
        assert(ids@ =~= item_ids(mods_data.deep_view().take(i + 1)));
        i = i + 1;
    }
    assert(mods_data.deep_view().take(mods_data.len() as int) =~= mods_data.deep_view());
    ids
}

/// Appends copies of `more` to `all`.
fn append_copies(all: &mut Vec<String>, more: &Vec<String>)
    ensures
        final(all).deep_view() == old(all).deep_view() + more.deep_view(),
{
    let mut k: usize = 0;
    while k < more.len()
        invariant
            k <= more.len(),
            all.deep_view() == old(all).deep_view() + more.deep_view().take(k as int),
        decreases more.len() - k,
    {
        let ghost before = all.deep_view();
        all.push(more[k].clone());
        assert(all.deep_view() =~= before.push(more@[k as int]@));
        assert(more.deep_view().take(k + 1) =~= more.deep_view().take(k as int).push(
            more@[k as int]@,
        ));
        k = k + 1;
    }
    assert(more.deep_view().take(more.len() as int) =~= more.deep_view());
}

/// The mod names of `mods_data`, item by item.
pub fn names_of_mods(mods_data: &Vec<ModData>) -> (names: Vec<String>)
    ensures
        names.deep_view() == mod_names(mods_data.deep_view()),
{
    let mut names: Vec<String> = Vec::new();
    let mut i: usize = 0;
    assert(mods_data.deep_view().take(0).map_values(names_of()) =~= Seq::<
        Seq<Seq<char>>,
    >::empty());
    assert(names.deep_view() =~= Seq::<Seq<char>>::empty());
    while i < mods_data.len()
        invariant
            i <= mods_data.len(),
            names.deep_view() == mod_names(mods_data.deep_view().take(i as int)),
        decreases mods_data.len() - i,
    {
        proof {
            let done = mods_data.deep_view().take(i as int).map_values(names_of());
            assert(mods_data.deep_view().take(i + 1).map_values(names_of()) =~= done.push(
                mods_data@[i as int].mod_name.deep_view(),
            ));
            done.lemma_flatten_push(mods_data@[i as int].mod_name.deep_view());
        }
        append_copies(&mut names, &mods_data[i].mod_name);
        i = i + 1;
    }
    assert(mods_data.deep_view().take(mods_data.len() as int) =~= mods_data.deep_view());
    names
}

/// The map folders of `mods_data`, item by item.
pub fn map_folders_of_mods(mods_data: &Vec<ModData>) -> (folders: Vec<String>)
    ensures
        folders.deep_view() == map_folders(mods_data.deep_view()),
{
    let mut folders: Vec<String> = Vec::new();
    let mut i: usize = 0;
    assert(mods_data.deep_view().take(0).map_values(map_folders_of()) =~= Seq::<
        Seq<Seq<char>>,
    >::empty());
    assert(folders.deep_view() =~= Seq::<Seq<char>>::empty());
    while i < mods_data.len()
        invariant
            i <= mods_data.len(),
            folders.deep_view() == map_folders(mods_data.deep_view().take(i as int)),
        decreases mods_data.len() - i,
    {
        proof {
            let done = mods_data.deep_view().take(i as int).map_values(map_folders_of());
            assert(mods_data.deep_view().take(i + 1).map_values(map_folders_of()) =~= done.push(
                mods_data@[i as int].map_name.deep_view(),
            ));
            done.lemma_flatten_push(mods_data@[i as int].map_name.deep_view());
        }
        append_copies(&mut folders, &mods_data[i].map_name);
        i = i + 1;
    }
    assert(mods_data.deep_view().take(mods_data.len() as int) =~= mods_data.deep_view());
    folders
}

/// The `WorkshopItems` value: the identifiers of the resolved items that are
/// not excluded, then the added identifiers that are not among them, each in
/// decimal and followed by a semicolon.
pub fn generate_workshop_items_string(
    mods_data: &Vec<ModData>,
    ids_to_include: &Vec<u64>,
    ids_to_exclude: &Vec<u64>,
) -> (workshop_items_string: String)
    ensures
        workshop_items_string@ == workshop_items_text(
            mods_data.deep_view(),
            ids_to_include@,
            ids_to_exclude@,
        ),
{
    let resolved = ids_of_mods(mods_data);
    let tokens = merge_ids(&resolved, ids_to_include, ids_to_exclude);
    write_id_list(&tokens)
}

/// The `Mods` value: the names of the resolved mods that are not excluded,
/// then the added names that are not among them, each followed by a
/// semicolon.
pub fn generate_mods_string(
    mods_data: &Vec<ModData>,
    mods_to_include: &Vec<String>,
    mods_to_exclude: &Vec<String>,
) -> (mods_string: String)
    ensures
        mods_string@ == mods_text(
            mods_data.deep_view(),
            mods_to_include.deep_view(),
            mods_to_exclude.deep_view(),
        ),
{
    let resolved = names_of_mods(mods_data);
    let tokens = merge_texts(&resolved, mods_to_include, mods_to_exclude);
    write_list(&tokens)
}

/// The `Map` value: the map folders of the resolved mods that are not
/// excluded, then the added ones that are not among them, then the map of the
/// base game, each followed by a semicolon.
pub fn generate_map_string(
    mods_data: &Vec<ModData>,
    maps_to_include: &Vec<String>,
    maps_to_exclude: &Vec<String>,
) -> (map_string: String)
    ensures
        map_string@ == maps_text(
            mods_data.deep_view(),
            maps_to_include.deep_view(),
            maps_to_exclude.deep_view(),
        ),
        DEFAULT_MAP@.push(';').is_suffix_of(map_string@),
{
    let resolved = map_folders_of_mods(mods_data);
    let mut tokens = merge_texts(&resolved, maps_to_include, maps_to_exclude);
    let ghost merged_tokens = tokens.deep_view();
    tokens.push(DEFAULT_MAP.to_owned());
    assert(tokens.deep_view() =~= merged_tokens.push(DEFAULT_MAP@));
    proof {
        lemma_list_ends_with_last(tokens.deep_view());
    }
    write_list(&tokens)
}

/// A list value ends with its last entry and the semicolon after it.
pub proof fn lemma_list_ends_with_last(entries: Seq<Seq<char>>)
    requires
        entries.len() > 0,
    ensures
        entries.last().push(';').is_suffix_of(terminated_list(entries)),
{
    let text = terminated_list(entries);
    let tail = entries.last().push(';');
    assert(text == terminated_list(entries.drop_last()) + tail);
    assert(tail =~= text.subrange(text.len() - tail.len(), text.len() as int));
}

/// The `Map` value ends with the map of the base game and its semicolon,
/// whatever was resolved, added or excluded.
pub proof fn lemma_maps_text_ends_with_default_map(
    mods: Seq<ResolvedItem>,
    added: Seq<Seq<char>>,
    excluded: Seq<Seq<char>>,
)
    ensures
        DEFAULT_MAP@.push(';').is_suffix_of(maps_text(mods, added, excluded)),
        map_tokens(mods, added, excluded).last() == DEFAULT_MAP@,
{
    lemma_list_ends_with_last(map_tokens(mods, added, excluded));
}

/// Of the `WorkshopItems` value: no excluded identifier is among the entries
/// that resolved items contribute, which are the first ones; an identifier
/// that was added once and is no resolved item is an entry once, behind
/// those; and the value is cut by its semicolons into its entries, each of
/// which reads back as its identifier.
pub proof fn lemma_workshop_items(mods: Seq<ResolvedItem>, added: Seq<u64>, excluded: Seq<u64>)
    ensures
        forall|id: u64| #[trigger]
            excluded.contains(id) ==> !without(item_ids(mods), excluded).contains(id),
        workshop_item_tokens(mods, added, excluded).take(
            without(item_ids(mods), excluded).len() as int,
        ) == without(item_ids(mods), excluded),
        forall|id: u64| #[trigger]
            added.contains(id) && !item_ids(mods).contains(id) && occurrences(added, id) == 1
                ==> occurrences(workshop_item_tokens(mods, added, excluded), id) == 1,
        pieces(workshop_items_text(mods, added, excluded)) == decimals(
            workshop_item_tokens(mods, added, excluded),
        ).push(Seq::empty()),
{
    let resolved = item_ids(mods);
    let kept = without(resolved, excluded);
    assert forall|id: u64| #[trigger] excluded.contains(id) implies !kept.contains(id) by {
        lemma_excluded_token_is_not_kept(resolved, added, excluded, id);
    }
    assert((kept + without(added, kept)).take(kept.len() as int) =~= kept);
    assert forall|id: u64| #[trigger]
        added.contains(id) && !resolved.contains(id) && occurrences(added, id)
            == 1 implies occurrences(workshop_item_tokens(mods, added, excluded), id) == 1 by {
        lemma_added_token_appears_once(resolved, added, excluded, id);
    }
    lemma_id_list_reads_back(workshop_item_tokens(mods, added, excluded));
}

/// Of the `Mods` value: no excluded name is among the entries that resolved
/// items contribute, which are the first ones; a name that was added once
/// and that no resolved item declares is an entry once, behind those; and
/// where no entry holds a semicolon, the value is cut by its semicolons into
/// its entries.
pub proof fn lemma_mods(mods: Seq<ResolvedItem>, added: Seq<Seq<char>>, excluded: Seq<Seq<char>>)
    ensures
        forall|name: Seq<char>| #[trigger]
            excluded.contains(name) ==> !without(mod_names(mods), excluded).contains(name),
        mod_tokens(mods, added, excluded).take(without(mod_names(mods), excluded).len() as int)
            == without(mod_names(mods), excluded),
        forall|name: Seq<char>| #[trigger]
            added.contains(name) && !mod_names(mods).contains(name) && occurrences(added, name)
                == 1 ==> occurrences(mod_tokens(mods, added, excluded), name) == 1,
        (forall|i: int|
            0 <= i < mod_tokens(mods, added, excluded).len() ==> semicolon_free(
                #[trigger] mod_tokens(mods, added, excluded)[i],
            )) ==> pieces(mods_text(mods, added, excluded)) == mod_tokens(
            mods,
            added,
            excluded,
        ).push(Seq::empty()),
{
    let resolved = mod_names(mods);
    let kept = without(resolved, excluded);
    assert forall|name: Seq<char>| #[trigger] excluded.contains(name) implies !kept.contains(
        name,
    ) by {
        lemma_excluded_token_is_not_kept(resolved, added, excluded, name);
    }
    assert((kept + without(added, kept)).take(kept.len() as int) =~= kept);
    assert forall|name: Seq<char>| #[trigger]
        added.contains(name) && !resolved.contains(name) && occurrences(added, name)
            == 1 implies occurrences(mod_tokens(mods, added, excluded), name) == 1 by {
        lemma_added_token_appears_once(resolved, added, excluded, name);
    }
    if forall|i: int|
        0 <= i < mod_tokens(mods, added, excluded).len() ==> semicolon_free(
            #[trigger] mod_tokens(mods, added, excluded)[i],
        ) {
        lemma_list_reads_back(mod_tokens(mods, added, excluded));
    }
}

/// Of the `Map` value: no excluded map is among the entries that resolved
/// items contribute, which are the first ones; a map other than that of the
/// base game that was added once and that no resolved item declares is an
/// entry once, behind those; and the last entry is the map of the base
/// game.
pub proof fn lemma_maps(mods: Seq<ResolvedItem>, added: Seq<Seq<char>>, excluded: Seq<Seq<char>>)
    ensures
        forall|map: Seq<char>| #[trigger]
            excluded.contains(map) ==> !without(map_folders(mods), excluded).contains(map),
        map_tokens(mods, added, excluded).take(without(map_folders(mods), excluded).len() as int)
            == without(map_folders(mods), excluded),
        forall|map: Seq<char>| #[trigger]
            added.contains(map) && !map_folders(mods).contains(map) && occurrences(added, map)
                == 1 && map != DEFAULT_MAP@ ==> occurrences(
                map_tokens(mods, added, excluded),
                map,
            ) == 1,
        map_tokens(mods, added, excluded).last() == DEFAULT_MAP@,
{
    let resolved = map_folders(mods);
    let kept = without(resolved, excluded);
    let tokens = merged(resolved, added, excluded);
    assert forall|map: Seq<char>| #[trigger] excluded.contains(map) implies !kept.contains(
        map,
    ) by {
        lemma_excluded_token_is_not_kept(resolved, added, excluded, map);
    }
    assert(tokens.push(DEFAULT_MAP@).take(kept.len() as int) =~= kept);
    assert forall|map: Seq<char>| #[trigger]
        added.contains(map) && !resolved.contains(map) && occurrences(added, map) == 1 && map
            != DEFAULT_MAP@ implies occurrences(map_tokens(mods, added, excluded), map) == 1 by {
        lemma_added_token_appears_once(resolved, added, excluded, map);
        tokens.lemma_filter_push(DEFAULT_MAP@, same_as(map));
    }
}

/// The three list values of one run.
pub struct ServerStrings {
    pub workshop_items: String,
    pub mods: String,
    /// The `Map` value, where maps were asked for.
    pub maps: Option<String>,
}

/// Makes the list values of `mods_data` under `settings`; the `Map` value
/// only where `with_maps` asks for it.
pub fn generate_strings(
    mods_data: &Vec<ModData>,
    settings: &ConfigWorkshopSettings,
    with_maps: bool,
) -> (strings: ServerStrings)
    ensures
        strings.workshop_items@ == workshop_items_text(
            mods_data.deep_view(),
            settings.included.workshop_items@,
            settings.exclude.workshop_items@,
        ),
        strings.mods@ == mods_text(
            mods_data.deep_view(),
            settings.included.mods.deep_view(),
            settings.exclude.mods.deep_view(),
        ),
        strings.maps is Some == with_maps,
        strings.maps matches Some(maps) ==> maps@ == maps_text(
            mods_data.deep_view(),
            settings.included.maps.deep_view(),
            settings.exclude.maps.deep_view(),
        ),
{
    let workshop_items = generate_workshop_items_string(
        mods_data,
        &settings.included.workshop_items,
        &settings.exclude.workshop_items,
    );
    let mods = generate_mods_string(mods_data, &settings.included.mods, &settings.exclude.mods);
    let maps = if with_maps {
        Some(generate_map_string(mods_data, &settings.included.maps, &settings.exclude.maps))
    } else {
        None
    };
    ServerStrings { workshop_items, mods, maps }
}

} // verus!
