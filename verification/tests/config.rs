use zomboid_server_operator::config::{
    ConfigWorkshopSettings, IncludeExcludeStruct, RconMessagesSettings, RconSettings,
    ServerSettings, ZSOConfig,
};
use zomboid_server_operator::steam_api_client::{
    ModData, CONNECT_TIMEOUT_SECS, ITEM_COUNT_FIELD, USER_AGENT,
};
use zomboid_server_operator::zomboid_utils::{generate_strings, DEFAULT_MAP};

#[test]
fn config_test() {
    let config = ZSOConfig::default();
    assert_eq!(config.collections, Vec::<u64>::new());
    assert_eq!(config.workshop_settings, ConfigWorkshopSettings::default());
    assert_eq!(config.rcon, None);
    assert_eq!(config.server_settings, None);
}

#[test]
fn default_settings_add_and_exclude_nothing() {
    let settings = ConfigWorkshopSettings::default();
    let empty = IncludeExcludeStruct { workshop_items: vec![], mods: vec![], maps: vec![] };
    assert_eq!(settings.included, empty);
    assert_eq!(settings.exclude, empty);
    let strings = generate_strings(&vec![], &settings, true);
    assert_eq!(strings.workshop_items, "");
    assert_eq!(strings.mods, "");
    assert_eq!(strings.maps, Some("Muldraugh, KY;".to_string()));
}

#[test]
fn default_server_and_rcon_settings_are_blank() {
    let server = ServerSettings::default();
    assert_eq!(server.reboot_command, "");
    assert_eq!(server.reboot_delay_sec, 0);
    assert!(!server.rcon_messages);
    let rcon = RconSettings::default();
    assert_eq!(rcon.host, "");
    assert_eq!(rcon.port, "");
    assert_eq!(rcon.password, "");
    assert_eq!(rcon.messages, RconMessagesSettings::default());
    assert_eq!(rcon.messages.reboot_15m, "");
}

#[test]
fn config_can_be_copied_and_compared() {
    let config = ZSOConfig {
        collections: vec![3105210406],
        workshop_settings: ConfigWorkshopSettings {
            included: IncludeExcludeStruct {
                workshop_items: vec![1],
                mods: vec!["A".to_string()],
                maps: vec![],
            },
            exclude: IncludeExcludeStruct::default(),
        },
        rcon: None,
        server_settings: Some(ServerSettings {
            reboot_command: "restart".to_string(),
            reboot_delay_sec: 900,
            rcon_messages: true,
        }),
    };
    assert_eq!(config.clone(), config);
    assert_ne!(config, ZSOConfig::default());
}

#[test]
fn default_mod_data_is_blank() {
    let item = ModData::default();
    assert_eq!(item.mod_id, 0);
    assert!(item.mod_name.is_empty());
    assert!(item.map_name.is_empty());
    assert_eq!(item.last_updated, 0);
}

#[test]
fn constants_of_the_service() {
    assert_eq!(CONNECT_TIMEOUT_SECS, 10);
    assert_eq!(USER_AGENT, "zomboid-server-operator v0.0.1");
    assert_eq!(ITEM_COUNT_FIELD, "itemcount");
    assert_eq!(DEFAULT_MAP, "Muldraugh, KY");
}
