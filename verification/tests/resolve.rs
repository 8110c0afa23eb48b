use zomboid_server_operator::collections::{
    collection_status, collections_readable, list_of_mods_in_collections, mods_in_collections,
    CollectionStatus,
};
use zomboid_server_operator::config::{ConfigWorkshopSettings, IncludeExcludeStruct};
use zomboid_server_operator::description::DescriptionParser;
use zomboid_server_operator::items::{
    details_readable, item_from_parts, resolve_details, resolve_item, ItemFailure, SkippedEntry,
};
use zomboid_server_operator::resolver::ItemDetailResolver;
use zomboid_server_operator::steam_api_client::{
    build_request_form, collection_details_form, endpoint, published_file_details_form, ModData,
    BATCH_SIZE, COLLECTION_DETAILS_PATH, PUBLISHED_FILE_DETAILS_PATH, STEAM_API_URL,
};
use zomboid_server_operator::steam_api_client_schemes::{
    Collectiondetail, CollectiondetailChild, GetCollectionInfo, GetCollectionInfoResponse,
    GetPublishedFileDetails, GetPublishedFileDetailsResponse, Publishedfiledetail,
};
use zomboid_server_operator::zomboid_utils::generate_strings;

fn parser() -> DescriptionParser {
    match DescriptionParser::new() {
        Some(parser) => parser,
        None => panic!("the description patterns do not compile"),
    }
}

fn strings(values: &[&str]) -> Vec<String> {
    values.iter().map(|v| v.to_string()).collect()
}

fn pairs(values: &[(&str, &str)]) -> Vec<(String, String)> {
    values.iter().map(|(k, v)| (k.to_string(), v.to_string())).collect()
}

fn child(id: &str) -> CollectiondetailChild {
    CollectiondetailChild { publishedfileid: id.to_string(), sortorder: 0, filetype: 0 }
}

fn collection(id: &str, result: i64, children: Option<&[&str]>) -> Collectiondetail {
    Collectiondetail {
        publishedfileid: id.to_string(),
        result,
        children: children.map(|ids| ids.iter().map(|c| child(c)).collect()),
    }
}

fn collections(details: Vec<Collectiondetail>) -> GetCollectionInfo {
    GetCollectionInfo {
        response: GetCollectionInfoResponse {
            result: 1,
            resultcount: details.len() as i64,
            collectiondetails: details,
        },
    }
}

fn detail(id: &str, result: u64, description: &str, updated: u64) -> Publishedfiledetail {
    Publishedfiledetail {
        publishedfileid: id.to_string(),
        result,
        description: description.to_string(),
        time_updated: updated,
        ..Publishedfiledetail::default()
    }
}

fn details(entries: Vec<Publishedfiledetail>) -> GetPublishedFileDetails {
    GetPublishedFileDetails {
        response: GetPublishedFileDetailsResponse {
            result: 1,
            resultcount: entries.len() as i64,
            publishedfiledetails: entries,
        },
    }
}

fn facts(mods: &Vec<ModData>) -> Vec<(u64, Vec<String>, Vec<String>, u64)> {
    mods.iter()
        .map(|m| (m.mod_id, m.mod_name.clone(), m.map_name.clone(), m.last_updated))
        .collect()
}

#[test]
fn endpoints_are_base_and_path() {
    assert_eq!(
        endpoint(STEAM_API_URL, COLLECTION_DETAILS_PATH),
        "https://api.steampowered.com/ISteamRemoteStorage/GetCollectionDetails/v1/"
    );
    assert_eq!(
        endpoint(STEAM_API_URL, PUBLISHED_FILE_DETAILS_PATH),
        "https://api.steampowered.com/ISteamRemoteStorage/GetPublishedFileDetails/v1/"
    );
    assert_eq!(endpoint("", ""), "");
}

#[test]
fn collection_form_counts_and_numbers_the_collections() {
    assert_eq!(
        collection_details_form(&vec![3105210406, 7]),
        pairs(&[
            ("collectioncount", "2"),
            ("publishedfileids[0]", "3105210406"),
            ("publishedfileids[1]", "7"),
        ])
    );
    assert_eq!(collection_details_form(&vec![]), pairs(&[("collectioncount", "0")]));
}

#[test]
fn item_form_counts_and_numbers_the_items() {
    let ids: Vec<u64> = (100..112).collect();
    let form = published_file_details_form(&ids);
    assert_eq!(form.len(), 13);
    assert_eq!(form[0], ("itemcount".to_string(), "12".to_string()));
    assert_eq!(form[1], ("publishedfileids[0]".to_string(), "100".to_string()));
    assert_eq!(form[11], ("publishedfileids[10]".to_string(), "110".to_string()));
    assert_eq!(form[12], ("publishedfileids[11]".to_string(), "111".to_string()));
}

#[test]
fn request_form_takes_any_count_field() {
    assert_eq!(
        build_request_form("n", &vec![0, u64::MAX]),
        pairs(&[
            ("n", "2"),
            ("publishedfileids[0]", "0"),
            ("publishedfileids[1]", "18446744073709551615"),
        ])
    );
}

#[test]
fn answered_collection_lists_its_children_in_order() {
    let answer = collections(vec![collection("100", 1, Some(&["3", "1", "2"]))]);
    assert!(collections_readable(&answer));
    assert_eq!(mods_in_collections(&answer), Some(vec![3, 1, 2]));
    assert_eq!(list_of_mods_in_collections(Some(&answer)), vec![3, 1, 2]);
}

#[test]
fn unavailable_and_unknown_results_contribute_nothing() {
    let answer = collections(vec![
        collection("100", 1, Some(&["1", "2"])),
        collection("200", 9, Some(&["50", "51"])),
        collection("300", 1, None),
        collection("400", 5, Some(&["60"])),
        collection("500", 0, None),
        collection("600", -1, Some(&["70"])),
        collection("700", 1, Some(&["3"])),
    ]);
    assert!(collections_readable(&answer));
    assert_eq!(mods_in_collections(&answer), Some(vec![1, 2, 3]));
    let without_them = collections(vec![
        collection("100", 1, Some(&["1", "2"])),
        collection("300", 1, None),
        collection("700", 1, Some(&["3"])),
    ]);
    assert_eq!(mods_in_collections(&without_them), Some(vec![1, 2, 3]));
}

#[test]
fn item_of_two_collections_is_listed_twice() {
    let answer = collections(vec![
        collection("100", 1, Some(&["1", "2"])),
        collection("200", 1, Some(&["2", "1"])),
    ]);
    assert_eq!(list_of_mods_in_collections(Some(&answer)), vec![1, 2, 2, 1]);
}

#[test]
fn no_collections_no_items() {
    assert_eq!(mods_in_collections(&collections(vec![])), Some(vec![]));
    let empty = collections(vec![collection("1", 1, Some(&[]))]);
    assert_eq!(mods_in_collections(&empty), Some(vec![]));
    assert_eq!(list_of_mods_in_collections(Some(&empty)), Vec::<u64>::new());
}

#[test]
fn failed_request_for_collections_gives_no_items() {
    assert_eq!(list_of_mods_in_collections(None), Vec::<u64>::new());
    let answer = collections(vec![collection("100", 1, Some(&["4"]))]);
    assert_eq!(list_of_mods_in_collections(Some(&answer)), vec![4]);
}

#[test]
fn collection_status_follows_the_result_code() {
    assert_eq!(collection_status(&collection("1", 1, Some(&["1"]))), CollectionStatus::Listed);
    assert_eq!(collection_status(&collection("1", 1, Some(&[]))), CollectionStatus::Listed);
    assert_eq!(collection_status(&collection("1", 1, None)), CollectionStatus::Empty);
    assert_eq!(collection_status(&collection("1", 9, None)), CollectionStatus::Unavailable);
    assert_eq!(collection_status(&collection("1", 9, Some(&["1"]))), CollectionStatus::Unavailable);
    assert_eq!(collection_status(&collection("1", 0, Some(&["1"]))), CollectionStatus::Failed);
    assert_eq!(collection_status(&collection("1", 2, None)), CollectionStatus::Failed);
    assert_eq!(collection_status(&collection("1", -9, None)), CollectionStatus::Failed);
}

#[test]
fn identifiers_are_read_as_decimal_numbers() {
    let answer = collections(vec![collection(
        "100",
        1,
        Some(&["0", "007", "+5", "18446744073709551615"]),
    )]);
    assert!(collections_readable(&answer));
    assert_eq!(mods_in_collections(&answer), Some(vec![0, 7, 5, u64::MAX]));
}

#[test]
fn unreadable_identifier_fails_the_answer_where_it_counts() {
    let unreadable = [
        "", "abc", " 7", "7 ", "-1", "+", "++1", "1_000", "18446744073709551616", "0x10",
        "\u{663}",
    ];
    for bad in unreadable {
        let answer = collections(vec![
            collection("100", 1, Some(&["1"])),
            collection("200", 1, Some(&["2", bad])),
        ]);
        assert!(!collections_readable(&answer), "{:?}", bad);
        assert_eq!(mods_in_collections(&answer), None, "{:?}", bad);
        assert_eq!(list_of_mods_in_collections(Some(&answer)), Vec::<u64>::new(), "{:?}", bad);
        let skipped = collections(vec![
            collection("100", 9, Some(&[bad])),
            collection("200", 7, Some(&[bad])),
            collection("300", 1, Some(&["3"])),
        ]);
        assert!(collections_readable(&skipped), "{:?}", bad);
        assert_eq!(mods_in_collections(&skipped), Some(vec![3]));
    }
}

#[test]
fn item_from_parts_follows_the_three_cases() {
    let ok = detail("42", 1, "", 99);
    let made = item_from_parts(&ok, strings(&["A", "B"]), strings(&["M"])).unwrap();
    assert_eq!(facts(&vec![made]), vec![(42, strings(&["A", "B"]), strings(&["M"]), 99)]);
    assert_eq!(
        item_from_parts(&ok, vec![], strings(&["M"])).unwrap_err(),
        ItemFailure::NoModName
    );
    let failed = detail("42", 9, "", 99);
    assert_eq!(
        item_from_parts(&failed, strings(&["A"]), vec![]).unwrap_err(),
        ItemFailure::RemoteResult
    );
    assert_eq!(item_from_parts(&failed, vec![], vec![]).unwrap_err(), ItemFailure::RemoteResult);
    let unreadable_but_failed = detail("none", 0, "", 1);
    assert_eq!(
        item_from_parts(&unreadable_but_failed, strings(&["A"]), vec![]).unwrap_err(),
        ItemFailure::RemoteResult
    );
    let unreadable = detail("none", 1, "", 1);
    assert_eq!(
        item_from_parts(&unreadable, strings(&["A"]), vec![]).unwrap_err(),
        ItemFailure::MalformedId
    );
    assert_eq!(
        item_from_parts(&unreadable, vec![], vec![]).unwrap_err(),
        ItemFailure::MalformedId
    );
}

#[test]
fn resolve_item_reads_the_description() {
    let text = "Some text\nMod ID: Alpha\nMap Folder: Town\nMod ID: Beta ";
    let entry = detail("7", 1, text, 1700000000);
    let item = resolve_item(&parser(), &entry).unwrap();
    assert_eq!(
        facts(&vec![item]),
        vec![(7, strings(&["Alpha", "Beta"]), strings(&["Town"]), 1700000000)]
    );
}

#[test]
fn item_without_mod_name_is_skipped_whatever_maps_it_declares() {
    let entry = detail("7", 1, "Map Folder: Town\nMap Folder: Village", 5);
    assert_eq!(resolve_item(&parser(), &entry).unwrap_err(), ItemFailure::NoModName);
    let bare = detail("8", 1, "", 5);
    assert_eq!(resolve_item(&parser(), &bare).unwrap_err(), ItemFailure::NoModName);
}

#[test]
fn item_that_the_service_failed_is_skipped() {
    let entry = detail("7", 9, "Mod ID: Alpha", 5);
    assert_eq!(resolve_item(&parser(), &entry).unwrap_err(), ItemFailure::RemoteResult);
    let other = detail("7", 0, "Mod ID: Alpha", 5);
    assert_eq!(resolve_item(&parser(), &other).unwrap_err(), ItemFailure::RemoteResult);
}

#[test]
fn resolve_details_keeps_the_order_and_skips_in_place() {
    let answer = details(vec![
        detail("3", 1, "Mod ID: C", 30),
        detail("9", 9, "Mod ID: Lost", 0),
        detail("1", 1, "Mod ID: A\nMap Folder: M", 10),
        detail("5", 1, "no declaration here", 50),
        detail("2", 1, "Mod ID: B", 20),
    ]);
    assert!(details_readable(&answer));
    assert_eq!(
        facts(&resolve_details(&parser(), &answer).unwrap().0),
        vec![
            (3, strings(&["C"]), vec![], 30),
            (1, strings(&["A"]), strings(&["M"]), 10),
            (2, strings(&["B"]), vec![], 20),
        ]
    );
    assert_eq!(
        resolve_details(&parser(), &answer).unwrap().1,
        vec![
            SkippedEntry { position: 1, reason: ItemFailure::RemoteResult },
            SkippedEntry { position: 3, reason: ItemFailure::NoModName },
        ]
    );
}

#[test]
fn removing_a_skipped_entry_changes_nothing() {
    let with = details(vec![
        detail("3", 1, "Mod ID: C", 30),
        detail("5", 1, "Map Folder: Only", 50),
        detail("2", 1, "Mod ID: B", 20),
    ]);
    let without = details(vec![detail("3", 1, "Mod ID: C", 30), detail("2", 1, "Mod ID: B", 20)]);
    assert_eq!(
        facts(&resolve_details(&parser(), &with).unwrap().0),
        facts(&resolve_details(&parser(), &without).unwrap().0)
    );
}

#[test]
fn unreadable_item_identifier_counts_only_in_answered_entries() {
    assert!(!details_readable(&details(vec![detail("x", 1, "Mod ID: A", 0)])));
    assert!(!details_readable(&details(vec![detail("", 1, "nothing", 0)])));
    assert!(details_readable(&details(vec![detail("x", 9, "Mod ID: A", 0)])));
    assert!(details_readable(&details(vec![])));
    let bad = details(vec![detail("1", 1, "Mod ID: A", 0), detail("x", 1, "Mod ID: B", 0)]);
    assert!(resolve_details(&parser(), &bad).is_none());
    assert_eq!(
        resolve_item(&parser(), &detail("x", 1, "Mod ID: B", 0)).unwrap_err(),
        ItemFailure::MalformedId
    );
    let skipped = details(vec![detail("1", 1, "Mod ID: A", 0), detail("x", 9, "Mod ID: B", 0)]);
    let (items, entries) = resolve_details(&parser(), &skipped).unwrap();
    assert_eq!(facts(&items), vec![(1, strings(&["A"]), vec![], 0)]);
    assert_eq!(entries, vec![SkippedEntry { position: 1, reason: ItemFailure::RemoteResult }]);
}

#[test]
fn answer_with_an_unreadable_identifier_ends_the_resolution() {
    let ids: Vec<u64> = (1..=15).collect();
    let mut resolver = ItemDetailResolver::new(parser(), ids);
    resolver.accept(Some(&details(vec![detail("1", 1, "Mod ID: One", 1)])));
    let bad =
        details(vec![detail("11", 1, "Mod ID: Eleven", 2), detail("1x", 1, "Mod ID: Bad", 3)]);
    assert_eq!(resolver.accept(Some(&bad)), vec![]);
    assert!(resolver.is_finished());
    assert!(resolver.next_request().is_none());
    assert_eq!(facts(&resolver.into_mods()), vec![(1, strings(&["One"]), vec![], 1)]);
}

#[test]
fn resolver_asks_batch_by_batch() {
    let ids: Vec<u64> = (1..=25).collect();
    let mut resolver = ItemDetailResolver::new(parser(), ids.clone());
    assert_eq!(BATCH_SIZE, 10);
    let mut seen: Vec<Vec<u64>> = vec![];
    let mut rounds = 0;
    while let Some(form) = resolver.next_request() {
        let batch = resolver.next_batch();
        assert_eq!(form, published_file_details_form(&batch));
        let answer = details(
            batch
                .iter()
                .map(|id| detail(&id.to_string(), 1, &format!("Mod ID: M{}", id), *id))
                .collect(),
        );
        seen.push(batch);
        resolver.accept(Some(&answer));
        rounds += 1;
        assert!(rounds <= 3);
    }
    assert_eq!(seen, vec![ids[0..10].to_vec(), ids[10..20].to_vec(), ids[20..25].to_vec()]);
    assert!(resolver.is_finished());
    assert_eq!(resolver.next_batch(), Vec::<u64>::new());
    let mods = resolver.into_mods();
    assert_eq!(mods.len(), 25);
    assert_eq!(mods.iter().map(|m| m.mod_id).collect::<Vec<u64>>(), ids);
    assert_eq!(mods[24].mod_name, strings(&["M25"]));
    assert_eq!(mods[24].last_updated, 25);
}

#[test]
fn resolver_with_a_full_last_batch() {
    let ids: Vec<u64> = (1..=20).collect();
    let mut resolver = ItemDetailResolver::new(parser(), ids);
    let mut rounds = 0;
    while resolver.next_request().is_some() {
        assert_eq!(resolver.next_batch().len(), 10);
        resolver.accept(Some(&details(vec![])));
        rounds += 1;
        assert!(rounds <= 2);
    }
    assert_eq!(rounds, 2);
    assert!(resolver.into_mods().is_empty());
}

#[test]
fn resolver_without_items_asks_nothing() {
    let resolver = ItemDetailResolver::new(parser(), vec![]);
    assert!(resolver.is_finished());
    assert!(resolver.next_request().is_none());
    assert!(resolver.into_mods().is_empty());
}

#[test]
fn failed_batch_ends_the_resolution_with_what_came_before() {
    let ids: Vec<u64> = (1..=25).collect();
    let mut resolver = ItemDetailResolver::new(parser(), ids);
    assert!(resolver.next_request().is_some());
    let skipped = resolver.accept(Some(&details(vec![
        detail("1", 1, "Mod ID: One", 1),
        detail("5", 1, "Map Folder: Five", 5),
        detail("2", 1, "Mod ID: Two", 2),
        detail("6", 3, "Mod ID: Six", 6),
    ])));
    assert_eq!(
        skipped,
        vec![
            SkippedEntry { position: 1, reason: ItemFailure::NoModName },
            SkippedEntry { position: 3, reason: ItemFailure::RemoteResult },
        ]
    );
    assert!(!resolver.is_finished());
    assert_eq!(resolver.next_batch(), (11..=20).collect::<Vec<u64>>());
    assert_eq!(resolver.accept(None), vec![]);
    assert!(resolver.is_finished());
    assert!(resolver.next_request().is_none());
    assert_eq!(resolver.next_batch(), Vec::<u64>::new());
    let late = details(vec![detail("21", 1, "Mod ID: Late", 3), detail("22", 1, "", 3)]);
    assert_eq!(resolver.accept(Some(&late)), vec![]);
    assert!(resolver.is_finished());
    assert_eq!(
        facts(&resolver.into_mods()),
        vec![(1, strings(&["One"]), vec![], 1), (2, strings(&["Two"]), vec![], 2)]
    );
}

#[test]
fn failed_first_batch_resolves_nothing() {
    let mut resolver = ItemDetailResolver::new(parser(), vec![1, 2, 3]);
    resolver.accept(None);
    assert!(resolver.is_finished());
    assert!(resolver.into_mods().is_empty());
}

#[test]
fn answers_after_the_last_batch_are_ignored() {
    let mut resolver = ItemDetailResolver::new(parser(), vec![1]);
    resolver.accept(Some(&details(vec![detail("1", 1, "Mod ID: One", 1)])));
    assert!(resolver.is_finished());
    resolver.accept(Some(&details(vec![detail("2", 1, "Mod ID: Two", 2)])));
    resolver.accept(None);
    assert_eq!(facts(&resolver.into_mods()), vec![(1, strings(&["One"]), vec![], 1)]);
}

#[test]
fn collections_to_configuration_values() {
    let collection_answer = collections(vec![collection("100", 1, Some(&["1", "2"]))]);
    assert_eq!(
        collection_details_form(&vec![100]),
        pairs(&[("collectioncount", "1"), ("publishedfileids[0]", "100")])
    );
    let items = list_of_mods_in_collections(Some(&collection_answer));
    assert_eq!(items, vec![1, 2]);
    let mut resolver = ItemDetailResolver::new(parser(), items);
    assert_eq!(
        resolver.next_request(),
        Some(pairs(&[
            ("itemcount", "2"),
            ("publishedfileids[0]", "1"),
            ("publishedfileids[1]", "2"),
        ]))
    );
    resolver.accept(Some(&details(vec![
        detail("1", 1, "Mod ID: A", 11),
        detail("2", 1, "Mod ID: B\r\nMap Folder: Riverside", 22),
    ])));
    assert!(resolver.next_request().is_none());
    let mods = resolver.into_mods();
    let settings = ConfigWorkshopSettings::default();
    let strings = generate_strings(&mods, &settings, true);
    assert_eq!(strings.workshop_items, "1;2;");
    assert_eq!(strings.mods, "A;B;");
    assert_eq!(strings.maps, Some("Riverside;Muldraugh, KY;".to_string()));
    let without_maps = generate_strings(&mods, &settings, false);
    assert_eq!(without_maps.workshop_items, "1;2;");
    assert_eq!(without_maps.mods, "A;B;");
    assert_eq!(without_maps.maps, None);
}

#[test]
fn settings_are_applied_to_each_value() {
    let mods = vec![
        ModData {
            mod_id: 1,
            mod_name: strings(&["A"]),
            map_name: strings(&["M1"]),
            last_updated: 0,
        },
        ModData {
            mod_id: 2,
            mod_name: strings(&["B"]),
            map_name: strings(&["M2"]),
            last_updated: 0,
        },
    ];
    let settings = ConfigWorkshopSettings {
        included: IncludeExcludeStruct {
            workshop_items: vec![3],
            mods: strings(&["C"]),
            maps: strings(&["M3"]),
        },
        exclude: IncludeExcludeStruct {
            workshop_items: vec![1],
            mods: strings(&["B"]),
            maps: strings(&["M1", "M2"]),
        },
    };
    let strings = generate_strings(&mods, &settings, true);
    assert_eq!(strings.workshop_items, "2;3;");
    assert_eq!(strings.mods, "A;C;");
    assert_eq!(strings.maps, Some("M3;Muldraugh, KY;".to_string()));
}
