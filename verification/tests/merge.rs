use zomboid_server_operator::steam_api_client::ModData;
use zomboid_server_operator::text::{
    contains_id, contains_text, id_to_string, read_id, trim_end_of, write_id_list, write_list,
};
use zomboid_server_operator::tokens::{ids_without, merge_ids, merge_texts, texts_without};
use zomboid_server_operator::zomboid_utils::{
    generate_map_string, generate_mods_string, generate_workshop_items_string, ids_of_mods,
    map_folders_of_mods, names_of_mods,
};

fn strings(values: &[&str]) -> Vec<String> {
    values.iter().map(|v| v.to_string()).collect()
}

fn item(id: u64, names: &[&str], maps: &[&str]) -> ModData {
    ModData { mod_id: id, mod_name: strings(names), map_name: strings(maps), last_updated: 0 }
}

#[test]
fn workshop_items_keep_resolved_order() {
    let mods = vec![item(30, &["C"], &[]), item(10, &["A"], &[]), item(20, &["B"], &[])];
    assert_eq!(generate_workshop_items_string(&mods, &vec![], &vec![]), "30;10;20;");
}

#[test]
fn workshop_items_of_nothing_is_empty() {
    assert_eq!(generate_workshop_items_string(&vec![], &vec![], &vec![]), "");
}

#[test]
fn workshop_items_drop_excluded() {
    let mods = vec![item(1, &["A"], &[]), item(2, &["B"], &[]), item(3, &["C"], &[])];
    assert_eq!(generate_workshop_items_string(&mods, &vec![], &vec![2]), "1;3;");
}

#[test]
fn workshop_items_append_added_after_resolved() {
    let mods = vec![item(1, &["A"], &[]), item(2, &["B"], &[])];
    assert_eq!(generate_workshop_items_string(&mods, &vec![9, 7], &vec![]), "1;2;9;7;");
}

#[test]
fn workshop_items_do_not_repeat_a_resolved_id() {
    let mods = vec![item(1, &["A"], &[]), item(2, &["B"], &[])];
    assert_eq!(generate_workshop_items_string(&mods, &vec![2, 3], &vec![]), "1;2;3;");
}

#[test]
fn excluded_and_added_id_comes_back() {
    let mods = vec![item(1, &["A"], &[]), item(5, &["B"], &[])];
    assert_eq!(generate_workshop_items_string(&mods, &vec![5], &vec![5]), "1;5;");
}

#[test]
fn added_id_that_is_only_excluded_is_still_added() {
    let mods = vec![item(1, &["A"], &[])];
    assert_eq!(generate_workshop_items_string(&mods, &vec![8], &vec![8]), "1;8;");
}

#[test]
fn id_added_twice_is_written_twice() {
    assert_eq!(generate_workshop_items_string(&vec![], &vec![5, 5], &vec![]), "5;5;");
}

#[test]
fn item_resolved_twice_is_written_twice() {
    let mods = vec![item(4, &["A"], &[]), item(4, &["A"], &[])];
    assert_eq!(generate_workshop_items_string(&mods, &vec![4], &vec![]), "4;4;");
}

#[test]
fn workshop_items_write_plain_decimals() {
    let mods = vec![item(0, &["A"], &[]), item(u64::MAX, &["B"], &[]), item(1000, &["C"], &[])];
    assert_eq!(
        generate_workshop_items_string(&mods, &vec![3105210406], &vec![]),
        "0;18446744073709551615;1000;3105210406;"
    );
}

#[test]
fn mods_string_lists_every_name_of_every_item() {
    let mods = vec![item(1, &["A", "A2"], &[]), item(2, &["B"], &[])];
    assert_eq!(generate_mods_string(&mods, &vec![], &vec![]), "A;A2;B;");
}

#[test]
fn mods_string_applies_added_and_excluded() {
    let mods = vec![item(1, &["A", "A2"], &[]), item(2, &["B"], &[])];
    assert_eq!(
        generate_mods_string(&mods, &strings(&["Extra", "B"]), &strings(&["A2"])),
        "A;B;Extra;"
    );
}

#[test]
fn mods_string_compares_names_exactly() {
    let mods = vec![item(1, &["Hydrocraft"], &[])];
    assert_eq!(
        generate_mods_string(&mods, &strings(&["hydrocraft"]), &strings(&["Hydrocraft "])),
        "Hydrocraft;hydrocraft;"
    );
}

#[test]
fn map_string_of_nothing_is_the_default_map() {
    assert_eq!(generate_map_string(&vec![], &vec![], &vec![]), "Muldraugh, KY;");
}

#[test]
fn map_string_ends_with_the_default_map() {
    let mods = vec![
        item(1, &["A"], &["Riverside"]),
        item(2, &["B"], &[]),
        item(3, &["C"], &["West", "East"]),
    ];
    assert_eq!(
        generate_map_string(&mods, &strings(&["North"]), &strings(&["West"])),
        "Riverside;East;North;Muldraugh, KY;"
    );
}

#[test]
fn map_string_repeats_the_default_map_when_it_was_resolved() {
    let mods = vec![item(1, &["A"], &["Muldraugh, KY"])];
    assert_eq!(generate_map_string(&mods, &vec![], &vec![]), "Muldraugh, KY;Muldraugh, KY;");
}

#[test]
fn map_string_keeps_the_default_map_when_it_is_excluded() {
    let mods = vec![item(1, &["A"], &["Bedford"])];
    assert_eq!(
        generate_map_string(&mods, &vec![], &strings(&["Muldraugh, KY", "Bedford"])),
        "Muldraugh, KY;"
    );
}

#[test]
fn default_map_added_by_hand_is_written_twice() {
    assert_eq!(
        generate_map_string(&vec![], &strings(&["Muldraugh, KY"]), &vec![]),
        "Muldraugh, KY;Muldraugh, KY;"
    );
}

#[test]
fn map_added_twice_is_written_twice() {
    assert_eq!(
        generate_map_string(&vec![], &strings(&["West", "West"]), &vec![]),
        "West;West;Muldraugh, KY;"
    );
}

#[test]
fn merging_twice_gives_the_same_strings() {
    let mods = vec![item(1, &["A"], &["M1"]), item(2, &["B", "C"], &["M2"])];
    let added = strings(&["X", "B"]);
    let excluded = strings(&["C", "M1"]);
    assert_eq!(
        generate_workshop_items_string(&mods, &vec![7], &vec![1]),
        generate_workshop_items_string(&mods, &vec![7], &vec![1])
    );
    assert_eq!(
        generate_mods_string(&mods, &added, &excluded),
        generate_mods_string(&mods, &added, &excluded)
    );
    assert_eq!(
        generate_map_string(&mods, &added, &excluded),
        generate_map_string(&mods, &added, &excluded)
    );
}

#[test]
fn excluded_tokens_never_come_from_resolved_data() {
    let mods = vec![item(1, &["A"], &[]), item(2, &["B"], &[]), item(3, &["A"], &[])];
    let out = generate_mods_string(&mods, &vec![], &strings(&["A"]));
    assert_eq!(out, "B;");
    let ids = generate_workshop_items_string(&mods, &vec![], &vec![1, 3]);
    assert_eq!(ids, "2;");
}

#[test]
fn added_token_appears_once_after_all_resolved_tokens() {
    let mods = vec![item(1, &["A"], &[]), item(2, &["B"], &[])];
    let out = generate_mods_string(&mods, &strings(&["Z"]), &vec![]);
    assert_eq!(out, "A;B;Z;");
    assert_eq!(out.matches("Z;").count(), 1);
}

#[test]
fn merge_ids_on_plain_lists() {
    assert_eq!(merge_ids(&vec![1, 2, 3], &vec![3, 4, 2, 4], &vec![2]), vec![1, 3, 4, 2, 4]);
    assert_eq!(merge_ids(&vec![], &vec![], &vec![1]), Vec::<u64>::new());
}

#[test]
fn merge_texts_on_plain_lists() {
    assert_eq!(
        merge_texts(&strings(&["a", "b"]), &strings(&["b", "c"]), &strings(&["a"])),
        strings(&["b", "c"])
    );
}

#[test]
fn without_keeps_order_and_repetitions() {
    assert_eq!(ids_without(&vec![5, 1, 5, 2, 1], &vec![1]), vec![5, 5, 2]);
    assert_eq!(
        texts_without(&strings(&["x", "y", "x"]), &strings(&["y", "q"])),
        strings(&["x", "x"])
    );
}

#[test]
fn contains_finds_what_is_there() {
    assert!(contains_id(&vec![1, 2, 3], 3));
    assert!(!contains_id(&vec![1, 2, 3], 4));
    assert!(!contains_id(&vec![], 0));
    assert!(contains_text(&strings(&["a", "bc"]), &"bc".to_string()));
    assert!(!contains_text(&strings(&["a", "bc"]), &"b".to_string()));
}

#[test]
fn lists_are_written_with_a_semicolon_after_every_entry() {
    assert_eq!(write_list(&strings(&["a", "", "b c"])), "a;;b c;");
    assert_eq!(write_list(&vec![]), "");
    assert_eq!(write_id_list(&vec![10, 0, 7]), "10;0;7;");
}

#[test]
fn tokens_of_mods_come_item_by_item() {
    let mods =
        vec![item(3, &["A", "B"], &["M"]), item(1, &["C"], &[]), item(2, &["A"], &["N", "M"])];
    assert_eq!(ids_of_mods(&mods), vec![3, 1, 2]);
    assert_eq!(names_of_mods(&mods), strings(&["A", "B", "C", "A"]));
    assert_eq!(map_folders_of_mods(&mods), strings(&["M", "N", "M"]));
}

#[test]
fn identifiers_are_written_in_decimal() {
    assert_eq!(id_to_string(0), "0");
    assert_eq!(id_to_string(7), "7");
    assert_eq!(id_to_string(10), "10");
    assert_eq!(id_to_string(1905), "1905");
    assert_eq!(id_to_string(3105210406), "3105210406");
    assert_eq!(id_to_string(u64::MAX), "18446744073709551615");
    for n in [0u64, 9, 10, 99, 100, 12345678901234567890, u64::MAX - 1] {
        assert_eq!(id_to_string(n), n.to_string());
    }
}

#[test]
fn identifiers_are_read_from_decimal() {
    assert_eq!(read_id("0"), Some(0));
    assert_eq!(read_id("42"), Some(42));
    assert_eq!(read_id("+42"), Some(42));
    assert_eq!(read_id("0042"), Some(42));
    assert_eq!(read_id("+0"), Some(0));
    assert_eq!(read_id("18446744073709551615"), Some(u64::MAX));
    assert_eq!(read_id("000018446744073709551615"), Some(u64::MAX));
    assert_eq!(read_id("18446744073709551616"), None);
    assert_eq!(read_id("99999999999999999999"), None);
    assert_eq!(read_id("184467440737095516150"), None);
    assert_eq!(read_id(""), None);
    assert_eq!(read_id("+"), None);
    assert_eq!(read_id("-1"), None);
    assert_eq!(read_id("++1"), None);
    assert_eq!(read_id("1+"), None);
    assert_eq!(read_id("12a"), None);
    assert_eq!(read_id(" 12"), None);
    assert_eq!(read_id("12 "), None);
    assert_eq!(read_id("1_2"), None);
    assert_eq!(read_id("\u{661}\u{662}"), None);
    assert_eq!(read_id("99999999999999999999x"), None);
}

#[test]
fn reading_agrees_with_the_standard_parser() {
    let texts = [
        "", "0", "1", "+1", "-1", "+", "++", "+-1", "007", "18446744073709551615",
        "18446744073709551616", "28446744073709551615", "1e3", "0x1f", "１２", "12\n", "\t12",
        "4294967296", "+18446744073709551615", "+18446744073709551616",
    ];
    for text in texts {
        assert_eq!(read_id(text), text.parse::<u64>().ok(), "{:?}", text);
    }
}

#[test]
fn writing_and_reading_an_identifier_gives_it_back() {
    for n in [0u64, 1, 9, 10, 11, 3105210406, u64::MAX] {
        assert_eq!(read_id(&id_to_string(n)), Some(n));
    }
}

#[test]
fn trailing_whitespace_is_trimmed() {
    assert_eq!(trim_end_of(""), "");
    assert_eq!(trim_end_of("a"), "a");
    assert_eq!(trim_end_of("a "), "a");
    assert_eq!(trim_end_of(" a b \t\r\n"), " a b");
    assert_eq!(trim_end_of("   "), "");
    assert_eq!(trim_end_of("\u{e9}t\u{e9}\u{a0}\u{2003}"), "\u{e9}t\u{e9}");
    assert_eq!(trim_end_of("x\u{200b} "), "x\u{200b}");
}

#[test]
fn trimming_agrees_with_the_standard_library() {
    for code in 0u32..0x3100 {
        if let Some(c) = char::from_u32(code) {
            let text = format!("a {}b{}", c, c);
            assert_eq!(trim_end_of(&text), text.trim_end(), "{:#x}", code);
        }
    }
    for code in [0xfeffu32, 0x1d173, 0xe0020, 0x10ffff] {
        let c = char::from_u32(code).unwrap();
        let text = format!("a{} {}", c, c);
        assert_eq!(trim_end_of(&text), text.trim_end(), "{:#x}", code);
    }
}
