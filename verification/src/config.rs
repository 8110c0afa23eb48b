//! The operator's settings: which collections to resolve, and which items,
//! mods and maps to add or leave out by hand.

use vstd::prelude::*;

verus! {

#[derive(Default, Debug, Clone, PartialEq)]
pub struct ZSOConfig {
    pub collections: Vec<u64>,
    pub workshop_settings: ConfigWorkshopSettings,
    pub rcon: Option<RconSettings>,
    pub server_settings: Option<ServerSettings>,
}

#[derive(Default, Debug, Clone, PartialEq)]
pub struct ServerSettings {
    pub reboot_command: String,
    pub reboot_delay_sec: u64,
    pub rcon_messages: bool,
}

#[derive(Default, Debug, Clone, PartialEq)]
pub struct RconSettings {
    pub host: String,
    pub port: String,
    pub password: String,
    pub messages: RconMessagesSettings,
}

#[derive(Default, Debug, Clone, PartialEq)]
pub struct RconMessagesSettings {
    pub reboot_15m: String,
    pub reboot_5m: String,
    pub reboot_1m: String,
}

/// What the operator adds to the resolved lists, and what is kept out of them.
#[derive(Default, Debug, Clone, PartialEq)]
pub struct ConfigWorkshopSettings {
    pub included: IncludeExcludeStruct,
    pub exclude: IncludeExcludeStruct,
}

/// One list of workshop item identifiers, one of mod names, one of map names.
#[derive(Default, Debug, Clone, PartialEq)]
pub struct IncludeExcludeStruct {
    pub workshop_items: Vec<u64>,
    pub mods: Vec<String>,
    pub maps: Vec<String>,
}

} // verus!
