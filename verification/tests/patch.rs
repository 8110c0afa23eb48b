use zomboid_server_operator::server_config::{
    count_entries, initial_check, ConfigPatcher, EntryCounts, MissingKey,
};

fn patcher() -> ConfigPatcher {
    match ConfigPatcher::new() {
        Some(patcher) => patcher,
        None => panic!("the line patterns do not compile"),
    }
}

#[test]
fn patcher_is_available() {
    assert!(ConfigPatcher::new().is_some());
}

#[test]
fn patch_sets_items_and_mods_in_place() {
    let document = "PVP=true\nWorkshopItems=1;2;\n# mods below\nMods=Old;\nMaxPlayers=16\n";
    assert_eq!(
        patcher().patch(document, "10;20;", "New;", None),
        "PVP=true\nWorkshopItems=10;20;\n# mods below\nMods=New;\nMaxPlayers=16\n"
    );
}

#[test]
fn patch_without_maps_leaves_the_map_line() {
    let document = "Mods=Old;\nMap=Custom;Muldraugh, KY\nWorkshopItems=1;";
    assert_eq!(
        patcher().patch(document, "2;", "New;", None),
        "Mods=New;\nMap=Custom;Muldraugh, KY\nWorkshopItems=2;"
    );
}

#[test]
fn patch_with_maps_sets_the_map_line() {
    let document = "Mods=Old;\nMap=Muldraugh, KY\nWorkshopItems=1;";
    assert_eq!(
        patcher().patch(document, "2;", "New;", Some("Riverside;Muldraugh, KY;")),
        "Mods=New;\nMap=Riverside;Muldraugh, KY;\nWorkshopItems=2;"
    );
}

#[test]
fn patch_of_a_document_without_the_lines_changes_nothing() {
    let document = "PVP=true\n\n  indented=1\r\n# WorkshopItems=1\n";
    assert_eq!(patcher().patch(document, "1;", "A;", Some("M;")), document);
    assert_eq!(patcher().patch("", "1;", "A;", Some("M;")), "");
}

#[test]
fn patch_needs_the_key_at_the_start_of_a_line() {
    let document = " WorkshopItems=1;\n#Mods=a;\nOldMap=x\nModsExtra=1\nMap =y";
    assert_eq!(patcher().patch(document, "9;", "Z;", Some("M;")), document);
}

#[test]
fn patch_sets_the_first_of_two_lines_only() {
    let document = "Mods=a;\nMods=b;\n";
    assert_eq!(patcher().patch(document, "", "New;", None), "Mods=New;\nMods=b;\n");
}

#[test]
fn patch_sets_an_empty_value() {
    let document = "WorkshopItems=\nMods=\nMap=";
    assert_eq!(
        patcher().patch(document, "1;", "A;", Some("M;")),
        "WorkshopItems=1;\nMods=A;\nMap=M;"
    );
}

#[test]
fn patch_can_empty_a_value() {
    let document = "WorkshopItems=1;2;\nMods=A;B;\n";
    assert_eq!(patcher().patch(document, "", "", None), "WorkshopItems=\nMods=\n");
}

#[test]
fn patch_takes_values_literally() {
    let document = "Mods=Old;\n";
    assert_eq!(patcher().patch(document, "", "a$1;${mods};$$;", None), "Mods=a$1;${mods};$$;\n");
}

#[test]
fn patch_keeps_carriage_returns() {
    let document = "A=1\r\nMods=Old;\r\nB=2\r\n";
    assert_eq!(patcher().patch(document, "", "New;", None), "A=1\r\nMods=New;\r\nB=2\r\n");
    let document = "WorkshopItems=1;\r\nMods=a;\r\nX=1\r\n";
    assert_eq!(
        patcher().patch(document, "2;", "b;", None),
        "WorkshopItems=2;\r\nMods=b;\r\nX=1\r\n"
    );
    let document = "X=1\r\nMap=Old\r\nMods=a;\r\nWorkshopItems=1;";
    assert_eq!(
        patcher().patch(document, "2;", "b;", Some("M;")),
        "X=1\r\nMap=M;\r\nMods=b;\r\nWorkshopItems=2;"
    );
}

#[test]
fn patch_keeps_every_kind_of_line_end() {
    let document = "A=1\nMods=Old;\r\nB=2\rWorkshopItems=1;\rMap=x\nC=3";
    assert_eq!(
        patcher().patch(document, "2;", "New;", Some("M;")),
        "A=1\nMods=New;\r\nB=2\rWorkshopItems=2;\rMap=M;\nC=3"
    );
    let blank = "Mods=\r\n\r\nWorkshopItems=\n\nMap=\r";
    assert_eq!(
        patcher().patch(blank, "1;", "A;", Some("M;")),
        "Mods=A;\r\n\r\nWorkshopItems=1;\n\nMap=M;\r"
    );
}

#[test]
fn patch_does_not_find_a_key_behind_a_carriage_return_of_a_pair() {
    let document = "A=1\r\nB=2 Mods=Old;\r\n";
    assert_eq!(patcher().patch(document, "", "New;", None), document);
}

#[test]
fn patch_keeps_characters_outside_ascii() {
    let document = "Name=\u{e9}t\u{e9}\nMods=Old;\nNote=\u{4e2d}\u{6587}\n";
    assert_eq!(
        patcher().patch(document, "", "N\u{e9}w;", None),
        "Name=\u{e9}t\u{e9}\nMods=N\u{e9}w;\nNote=\u{4e2d}\u{6587}\n"
    );
}

#[test]
fn patch_works_on_what_the_step_before_made() {
    let document = "WorkshopItems=1;\n";
    assert_eq!(
        patcher().patch(document, "2;\nMods=old;", "New;", None),
        "WorkshopItems=2;\nMods=New;\n"
    );
}

#[test]
fn patch_keeps_the_number_of_lines_and_every_other_line() {
    let documents = [
        "# server\nPVP=true\n\nWorkshopItems=1;2;\n  Mods=indented\nMods=Old;\nMap=Muldraugh, KY\n",
        "Mods=a\nMap=b\nWorkshopItems=c",
        "\n\nMap=\n\nMods=\n\nWorkshopItems=\n\n",
        "WorkshopItems=1;\r\n# note \r\nMods=a;\r\n\r\nMap=x\r\n",
        "nothing to set here\n",
    ];
    for document in documents {
        for maps in [None, Some("M1;Muldraugh, KY;")] {
            let updated = patcher().patch(document, "10;20;", "New;", maps);
            let before: Vec<&str> = document.split('\n').collect();
            let after: Vec<&str> = updated.split('\n').collect();
            assert_eq!(before.len(), after.len(), "{:?}", document);
            let mut set = [false, false, false];
            for (old, new) in before.iter().zip(after.iter()) {
                let end = if old.ends_with('\r') { "\r" } else { "" };
                if old.starts_with("WorkshopItems=") && !set[0] {
                    set[0] = true;
                    assert_eq!(*new, format!("WorkshopItems=10;20;{}", end));
                } else if old.starts_with("Mods=") && !set[1] {
                    set[1] = true;
                    assert_eq!(*new, format!("Mods=New;{}", end));
                } else if old.starts_with("Map=") && !set[2] && maps.is_some() {
                    set[2] = true;
                    assert_eq!(*new, format!("Map=M1;Muldraugh, KY;{}", end));
                } else {
                    assert_eq!(new, old, "{:?}", document);
                }
            }
        }
    }
}

#[test]
fn entries_are_the_pieces_between_semicolons() {
    assert_eq!(count_entries(""), 1);
    assert_eq!(count_entries("a"), 1);
    assert_eq!(count_entries(";"), 2);
    assert_eq!(count_entries("a;b"), 2);
    assert_eq!(count_entries("1;2;"), 3);
    assert_eq!(count_entries(";;;"), 4);
    assert_eq!(count_entries("\u{e9};\u{4e2d}"), 2);
}

#[test]
fn initial_check_counts_the_three_values() {
    assert_eq!(
        initial_check(Some("1;2;"), Some("A;B;C;"), Some("Muldraugh, KY")),
        Ok(EntryCounts { workshop_items: 3, mods: 4, maps: 1 })
    );
}

#[test]
fn initial_check_names_the_first_missing_key() {
    assert_eq!(initial_check(None, None, None), Err(MissingKey::WorkshopItems));
    assert_eq!(initial_check(None, Some(""), Some("")), Err(MissingKey::WorkshopItems));
    assert_eq!(initial_check(Some(""), None, None), Err(MissingKey::Mods));
    assert_eq!(initial_check(Some(""), None, Some("")), Err(MissingKey::Mods));
    assert_eq!(initial_check(Some(""), Some(""), None), Err(MissingKey::Maps));
}
